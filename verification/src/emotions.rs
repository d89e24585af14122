//! Emotion labels of the sentiment model: the model scores 28 emotions,
//! each at a fixed position of its output.

use vstd::prelude::*;

verus! {

/// Number of emotions the model scores.
pub const EMOTION_COUNT: usize = 28;

/// The model's emotions, in the order of its outputs.
pub open spec fn emotion_labels() -> Seq<Seq<char>> {
    seq![
        "admiration"@,
        "amusement"@,
        "anger"@,
        "annoyance"@,
        "approval"@,
        "caring"@,
        "confusion"@,
        "curiosity"@,
        "desire"@,
        "disappointment"@,
        "disapproval"@,
        "disgust"@,
        "embarrassment"@,
        "excitement"@,
        "fear"@,
        "gratitude"@,
        "grief"@,
        "joy"@,
        "love"@,
        "nervousness"@,
        "optimism"@,
        "pride"@,
        "realization"@,
        "relief"@,
        "remorse"@,
        "sadness"@,
        "surprise"@,
        "neutral"@,
    ]
}

/// The emotion at output `index`; `unknown` past the last one.
pub open spec fn emotion_label_of(index: int) -> Seq<char> {
    if 0 <= index < 28 {
        emotion_labels()[index]
    } else {
        "unknown"@
    }
}

/// Names the emotion scored at output `index` of the model.
pub fn emotion_label(index: usize) -> (r: &'static str)
    ensures
        r@ == emotion_label_of(index as int),
{
    match index {
        0 => "admiration",
        1 => "amusement",
        2 => "anger",
        3 => "annoyance",
        4 => "approval",
        5 => "caring",
        6 => "confusion",
        7 => "curiosity",
        8 => "desire",
        9 => "disappointment",
        10 => "disapproval",
        11 => "disgust",
        12 => "embarrassment",
        13 => "excitement",
        14 => "fear",
        15 => "gratitude",
        16 => "grief",
        17 => "joy",
        18 => "love",
        19 => "nervousness",
        20 => "optimism",
        21 => "pride",
        22 => "realization",
        23 => "relief",
        24 => "remorse",
        25 => "sadness",
        26 => "surprise",
        27 => "neutral",
        _ => "unknown",
    }
}

} // verus!
