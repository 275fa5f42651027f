//! The text side of a pipeline: which text a request is tokenized from, and
//! the chat template, which the `minijinja` crate renders. The tokenizer
//! itself is run by whoever drives the engine.

use vstd::prelude::*;
use vstd::slice::slice_to_vec;
use vstd::utf8::encode_utf8;
use std::collections::HashMap;
use minijinja::{Environment, Value};
use crate::request::RequestMessage;
use crate::hub::{bytes_end_with, ends_with};
use vstd::string::StringSliceAdditionalSpecFns;

verus! {

/// An error of the `minijinja` crate.
#[verifier::external_type_specification]
#[verifier::external_body]
pub struct ExTemplateError(minijinja::Error);

/// Where the access token for the model hub comes from.
#[derive(Clone, Debug)]
pub enum TokenSource {
    Literal(String),
    EnvVar(String),
    Path(String),
    CacheToken,
}

/// The kind of model a loader sets up.
#[derive(Clone, Copy, Debug, PartialEq, Eq, Structural)]
pub enum ModelKind {
    Normal,
    XLoraNormal,
    XLoraGGUF,
    XLoraGGML,
    QuantizedGGUF,
    QuantizedGGML,
}

/// A token of the tokenizer configuration that is spelled out with its
/// attributes.
#[derive(Clone, Debug)]
pub struct AddedTokensDecoder {
    pub token_type: Option<String>,
    pub content: String,
    pub lstrip: bool,
    pub normalized: bool,
    pub rstrip: bool,
    pub single_word: bool,
    pub special: Option<bool>,
}

/// A special token of the tokenizer configuration: either its text alone, or
/// spelled out with its attributes.
#[derive(Clone, Debug)]
pub enum SpecialToken {
    Literal(String),
    Added(AddedTokensDecoder),
}

/// The tokenizer configuration that comes with a model. The real-valued
/// maximal length is held as the bit pattern of its IEEE-754 double.
#[derive(Clone, Debug)]
pub struct ChatTemplate {
    pub add_bos_token: bool,
    pub add_eos_token: bool,
    pub added_tokens_decoder: Option<HashMap<String, AddedTokensDecoder>>,
    pub additional_special_tokens: Option<Vec<String>>,
    pub bos_token: SpecialToken,
    pub chat_template: Option<String>,
    pub clean_up_tokenization_spaces: bool,
    pub device_map: Option<String>,
    pub eos_token: SpecialToken,
    pub legacy: Option<bool>,
    pub model_max_length_bits: u64,
    pub pad_token: Option<String>,
    pub sp_model_kwargs: HashMap<String, String>,
    pub spaces_between_special_tokens: bool,
    pub tokenizer_class: String,
    pub truncation_size: Option<String>,
    pub unk_token: SpecialToken,
    pub use_default_system_prompt: bool,
}

/// Why the text side of a pipeline failed.
#[derive(Clone, Debug)]
pub enum PipelineError {
    /// The tokenizer could not map the text, or the ids; with its message.
    Tokenizer(String),
    /// The tokenizer configuration holds no chat template.
    NoChatTemplate,
    /// The chat template does not parse or does not render; with the
    /// message of the template engine.
    Template(String),
}

/// The text of a special token.
pub open spec fn token_text(t: SpecialToken) -> Seq<char> {
    match t {
        SpecialToken::Literal(lit) => lit@,
        SpecialToken::Added(added) => added.content@,
    }
}

/// A conversation as plain values: each message a map from the names of its
/// fields to their texts.
pub open spec fn messages_view(messages: Seq<HashMap<String, String>>) -> Seq<
    Map<String, String>,
> {
    Seq::new(messages.len(), |i: int| messages[i]@)
}

/// Named texts as plain values.
pub open spec fn texts_view(texts: Seq<(&str, &str)>) -> Seq<(Seq<char>, Seq<char>)> {
    Seq::new(texts.len(), |i: int| (texts[i].0@, texts[i].1@))
}

/// What the template engine makes of a template with the given name and
/// source: the rendered text, or nothing when the template does not parse
/// or does not render. The template sees one list of maps, one flag and
/// some texts, each under its name; of two values with one name the later
/// counts.
pub uninterp spec fn rendered(
    name: Seq<char>,
    source: Seq<char>,
    list_name: Seq<char>,
    list: Seq<Map<String, String>>,
    flag_name: Seq<char>,
    flag: bool,
    texts: Seq<(Seq<char>, Seq<char>)>,
) -> Option<Seq<char>>;

/// What the template engine makes of a chat template: it is rendered under
/// the name `chat_template`, and sees the conversation as `messages`, the
/// flag as `add_generation_prompt`, and the texts of the begin, end and
/// unknown tokens as `bos_token`, `eos_token` and `unk_token`.
pub open spec fn rendered_chat(
    template: Seq<char>,
    messages: Seq<Map<String, String>>,
    add_generation_prompt: bool,
    bos_token: Seq<char>,
    eos_token: Seq<char>,
    unk_token: Seq<char>,
) -> Option<Seq<char>> {
    rendered(
        "chat_template"@,
        template,
        "messages"@,
        messages,
        "add_generation_prompt"@,
        add_generation_prompt,
        seq![("bos_token"@, bos_token), ("eos_token"@, eos_token), ("unk_token"@, unk_token)],
    )
}

/// Renders a template with `minijinja`: one call of
/// `Environment::render_named_str` on a fresh `Environment::new()`, with the
/// named values made into one map by `Value::from_iter`, the list by
/// `Value::from_serialize`. The engine keeps the entries of every map in the
/// order of their keys, so the order in which a hash map is walked does not
/// reach the template. The contract gives the outcome a name: the text on
/// success, nothing on an error.
#[verifier::external_body]
fn render(
    name: &str,
    source: &str,
    list: (&str, &Vec<HashMap<String, String>>),
    flag: (&str, bool),
    texts: &Vec<(&str, &str)>,
) -> (r: Result<String, minijinja::Error>)
    ensures
        rendered(
            name@,
            source@,
            list.0@,
            messages_view(list.1@),
            flag.0@,
            flag.1,
            texts_view(texts@),
        ) == match r {
            Ok(text) => Some(text@),
            Err(_) => None,
        },
{
    let named = texts.iter().map(|t| (t.0, Value::from(t.1)));
    let first = [(list.0, Value::from_serialize(list.1)), (flag.0, Value::from(flag.1))];
    let ctx = Value::from_iter(first.into_iter().chain(named));
    Environment::new().render_named_str(name, source, ctx)
}

/// The message of a `minijinja` error, as its `Display` impl writes it.
#[verifier::external_body]
fn template_error_message(e: &minijinja::Error) -> (message: String) {
    e.to_string()
}

/// The text of a special token.
pub fn special_token_text(t: &SpecialToken) -> (s: &str)
    ensures
        s@ == token_text(*t),
{
    match t {
        SpecialToken::Literal(lit) => lit.as_str(),
        SpecialToken::Added(added) => added.content.as_str(),
    }
}

/// What becomes of what a tokenizer handed back: its ids or its text as
/// they are, and its message as a tokenizer error.
pub fn tokenizer_outcome<T>(outcome: Result<T, String>) -> (r: Result<T, PipelineError>)
    ensures
        r == match outcome {
            Ok(value) => Ok::<T, PipelineError>(value),
            Err(message) => Err::<T, PipelineError>(PipelineError::Tokenizer(message)),
        },
{
    match outcome {
        Ok(value) => Ok(value),
        Err(message) => Err(PipelineError::Tokenizer(message)),
    }
}

/// What `apply_chat_template` owes for a configuration and a conversation:
/// without a template the error that says so; with one, the rendered text,
/// or a template error when the template engine fails.
pub open spec fn chat_outcome(
    chat_template: ChatTemplate,
    messages: Seq<HashMap<String, String>>,
    add_generation_prompt: bool,
    r: Result<String, PipelineError>,
) -> bool {
    match chat_template.chat_template {
        None => r matches Err(e) && e is NoChatTemplate,
        Some(template) => match rendered_chat(
            template@,
            messages_view(messages),
            add_generation_prompt,
            token_text(chat_template.bos_token),
            token_text(chat_template.eos_token),
            token_text(chat_template.unk_token),
        ) {
            Some(text) => r matches Ok(s) && s@ == text,
            None => r matches Err(e) && e is Template,
        },
    }
}

/// Renders the stored chat template on a conversation. The template sees
/// the messages, the flag `add_generation_prompt` and the texts of the
/// configuration's begin, end and unknown tokens.
pub fn apply_chat_template(
    chat_template: &ChatTemplate,
    messages: &Vec<HashMap<String, String>>,
    add_generation_prompt: bool,
) -> (r: Result<String, PipelineError>)
    ensures
        chat_outcome(*chat_template, messages@, add_generation_prompt, r),
{
    let template = match &chat_template.chat_template {
        None => {
            return Err(PipelineError::NoChatTemplate);
        },
        Some(t) => t,
    };
    let mut texts: Vec<(&str, &str)> = Vec::new();
    texts.push(("bos_token", special_token_text(&chat_template.bos_token)));
    texts.push(("eos_token", special_token_text(&chat_template.eos_token)));
    texts.push(("unk_token", special_token_text(&chat_template.unk_token)));
    proof {
        assert(texts_view(texts@) =~= seq![
            ("bos_token"@, token_text(chat_template.bos_token)),
            ("eos_token"@, token_text(chat_template.eos_token)),
            ("unk_token"@, token_text(chat_template.unk_token)),
        ]);
    }
    let rendered = render(
        "chat_template",
        template.as_str(),
        ("messages", messages),
        ("add_generation_prompt", add_generation_prompt),
        &texts,
    );
    finish_chat_template(rendered)
}

/// The text that a request is tokenized from: the prompt of a completion as
/// it is, and the conversation of a chat as the chat template renders it
/// with the prompt for the answer added.
pub fn prompt_text(chat_template: &ChatTemplate, messages: &RequestMessage) -> (r: Result<
    String,
    PipelineError,
>)
    ensures
        match *messages {
            RequestMessage::Completion(prompt) => r matches Ok(text) && text@ == prompt@,
            RequestMessage::Chat(conversation) => chat_outcome(
                *chat_template,
                conversation@,
                true,
                r,
            ),
        },
{
    match messages {
        RequestMessage::Completion(prompt) => Ok(prompt.clone()),
        RequestMessage::Chat(conversation) => apply_chat_template(chat_template, conversation, true),
    }
}

/// Hands the rendered text on, or turns the template engine's error into a
/// template error with its message.
pub fn finish_chat_template(rendered: Result<String, minijinja::Error>) -> (r: Result<
    String,
    PipelineError,
>)
    ensures
        match rendered {
            Ok(text) => r matches Ok(s) && s == text,
            Err(_) => r matches Err(e) && e is Template,
        },
{
    match rendered {
        Ok(text) => Ok(text),
        Err(e) => Err(PipelineError::Template(template_error_message(&e))),
    }
}

/// Where the chat template of a model comes from.
#[derive(Clone, Debug)]
pub enum TemplateSource {
    /// The tokenizer configuration holds one.
    Stored,
    /// A file that was named: JSON with the template and, if it likes, the
    /// begin and end tokens.
    SpecifiedFile(String),
    /// A template that was given as it is.
    SpecifiedLiteral(String),
    /// The default file.
    DefaultFile,
}

/// Where the chat template comes from: the tokenizer configuration if it
/// holds one; else what was specified, taken as the name of a file if it
/// ends with `.json` and as the template itself if not; else the default
/// file.
pub fn chat_template_source(stored: &Option<String>, specified: &Option<String>) -> (r:
    TemplateSource)
    ensures
        match (*stored, *specified) {
            (Some(_), _) => r is Stored,
            (None, Some(t)) => if ends_with(encode_utf8(t@), ".json".spec_bytes()) {
                r matches TemplateSource::SpecifiedFile(name) && name@ == t@
            } else {
                r matches TemplateSource::SpecifiedLiteral(text) && text@ == t@
            },
            (None, None) => r is DefaultFile,
        },
{
    match stored {
        Some(_) => TemplateSource::Stored,
        None => match specified {
            Some(t) => {
                if bytes_end_with(&text_bytes(t.as_str()), &text_bytes(".json")) {
                    TemplateSource::SpecifiedFile(t.clone())
                } else {
                    TemplateSource::SpecifiedLiteral(t.clone())
                }
            },
            None => TemplateSource::DefaultFile,
        },
    }
}

/// The bytes of a text.
pub fn text_bytes(s: &str) -> (bytes: Vec<u8>)
    ensures
        bytes@ == s.spec_bytes(),
{
    slice_to_vec(s.as_bytes())
}

} // verus!
