//! Prompt templates: a Jinja template rendered with a JSON context.

use vstd::prelude::*;

use crate::json::{json_text, to_json_text, Json};
use crate::text::{trim, trimmed};

verus! {

/// The step of rendering at which a template failed.
#[derive(Debug, Clone, Copy, PartialEq, Eq, Structural)]
pub enum TemplateStage {
    /// The context is not JSON text (a number holding text that is not a
    /// JSON number).
    Context,
    /// The template does not parse.
    Parse,
    /// The parsed template cannot be looked up.
    Lookup,
    /// Rendering the template with the context failed.
    Render,
}

/// What the template engine gives for `template` with the context whose
/// JSON text is `context`: the rendered text, or the step that failed with
/// the engine's message.
pub uninterp spec fn rendered_template(template: Seq<char>, context: Seq<char>) -> Result<
    Seq<char>,
    (TemplateStage, Seq<char>),
>;

/// Renders `template` with the context read from the JSON text `context`:
/// `serde_json::from_str` reads the context, and minijinja's
/// `Environment::add_template`, `get_template` and `Template::render`
/// render it. The result, a function of the two texts alone, is
/// [`rendered_template`]; each error is the failing step and the error's
/// message.
#[verifier::external_body]
fn render_template(template: &str, context: &str) -> (r: Result<String, (TemplateStage, String)>)
    ensures
        match r {
            Ok(s) => rendered_template(template@, context@) == Ok::<
                Seq<char>,
                (TemplateStage, Seq<char>),
            >(s@),
            Err((stage, m)) => rendered_template(template@, context@) == Err::<
                Seq<char>,
                (TemplateStage, Seq<char>),
            >((stage, m@)),
        },
{
    let ctx: serde_json::Value = match serde_json::from_str(context) {
        Ok(v) => v,
        Err(e) => return Err((TemplateStage::Context, e.to_string())),
    };
    let mut env = minijinja::Environment::new();
    if let Err(e) = env.add_template("prompt", template) {
        return Err((TemplateStage::Parse, e.to_string()));
    }
    match env.get_template("prompt") {
        Ok(tmpl) => match tmpl.render(minijinja::value::Serde(ctx)) {
            Ok(s) => Ok(s),
            Err(e) => Err((TemplateStage::Render, e.to_string())),
        },
        Err(e) => Err((TemplateStage::Lookup, e.to_string())),
    }
}

/// How an error of each step is reported.
pub open spec fn stage_prefix(stage: TemplateStage) -> Seq<char> {
    match stage {
        TemplateStage::Context => "Template context: "@,
        TemplateStage::Parse => "Template parse error: "@,
        TemplateStage::Lookup => "Template: "@,
        TemplateStage::Render => "Template render: "@,
    }
}

/// What [`render_prompt`] gives for the engine's result: the rendered text
/// trimmed, or the failing step's report followed by the engine's message.
pub open spec fn prompt_result(rendered: Result<Seq<char>, (TemplateStage, Seq<char>)>) -> Result<
    Seq<char>,
    Seq<char>,
> {
    match rendered {
        Ok(s) => Ok(trim(s)),
        Err((stage, m)) => Err(stage_prefix(stage) + m),
    }
}

/// The text of a prompt result.
pub open spec fn result_view(r: Result<String, String>) -> Result<Seq<char>, Seq<char>> {
    match r {
        Ok(s) => Ok(s@),
        Err(e) => Err(e@),
    }
}

/// Turns the engine's result into the prompt or its error (see
/// [`prompt_result`]).
pub fn finish_prompt(rendered: Result<String, (TemplateStage, String)>) -> (r: Result<String, String>)
    ensures
        result_view(r) == prompt_result(
            match rendered {
                Ok(s) => Ok(s@),
                Err((stage, m)) => Err((stage, m@)),
            },
        ),
{
    match rendered {
        Ok(s) => Ok(trimmed(s.as_str())),
        Err((stage, m)) => {
            let mut e = match stage {
                TemplateStage::Context => "Template context: ".to_owned(),
                TemplateStage::Parse => "Template parse error: ".to_owned(),
                TemplateStage::Lookup => "Template: ".to_owned(),
                TemplateStage::Render => "Template render: ".to_owned(),
            };
            e.append(m.as_str());
            Err(e)
        },
    }
}

/// Renders a Jinja template with a JSON context; the result is trimmed.
pub fn render_prompt(template_str: &str, context: &Json) -> (r: Result<String, String>)
    ensures
        result_view(r) == prompt_result(rendered_template(template_str@, json_text(*context))),
{
    let text = to_json_text(context);
    let rendered = render_template(template_str, text.as_str());
    finish_prompt(rendered)
}

} // verus!
