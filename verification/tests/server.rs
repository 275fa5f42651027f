use std::collections::HashMap;
use std::sync::mpsc::channel;

use mistralrs_core::completions::{
    parse_request, CompletionResponder, JsonError, JsonModelError, StreamItem, Streamer,
    STATUS_INTERNAL_SERVER_ERROR, STATUS_OK, STATUS_UNPROCESSABLE_ENTITY,
};
use mistralrs_core::openai::{CompletionRequest, Grammar, StopTokens as RequestStopTokens};
use mistralrs_core::pipeline::{
    apply_chat_template, chat_template_source, finish_chat_template, prompt_text,
    special_token_text, text_bytes, tokenizer_outcome, AddedTokensDecoder, ChatTemplate,
    ModelKind, PipelineError, SpecialToken, TemplateSource, TokenSource,
};
use mistralrs_core::request::{
    Constraint, ParamError, Request, RequestMessage, RequestType, SamplingParams, StopTokens,
};
use mistralrs_core::response::{ChunkResponse, CompletionResponse, Response, Usage};
use mistralrs_core::sequence::StopReason;
use mistralrs_core::MistralRs;
use tokenizers::models::wordlevel::WordLevel;
use tokenizers::pre_tokenizers::whitespace::Whitespace;
use tokenizers::Tokenizer;

fn word_tokenizer(with_unknown: bool) -> Tokenizer {
    let mut vocab: HashMap<String, u32> = HashMap::new();
    for (i, w) in ["<unk>", "the", "quick", "fox", "!"].iter().enumerate() {
        vocab.insert(w.to_string(), i as u32);
    }
    let builder = WordLevel::builder().vocab(vocab);
    let builder = if with_unknown {
        builder.unk_token("<unk>".to_string())
    } else {
        builder.unk_token("<missing>".to_string())
    };
    let mut tokenizer = Tokenizer::new(builder.build().unwrap());
    tokenizer.with_pre_tokenizer(Whitespace {});
    tokenizer
}

fn template(chat_template: Option<&str>) -> ChatTemplate {
    ChatTemplate {
        add_bos_token: true,
        add_eos_token: false,
        added_tokens_decoder: None,
        additional_special_tokens: None,
        bos_token: SpecialToken::Literal("<s>".to_string()),
        chat_template: chat_template.map(|t| t.to_string()),
        clean_up_tokenization_spaces: false,
        device_map: None,
        eos_token: SpecialToken::Added(AddedTokensDecoder {
            token_type: Some("AddedToken".to_string()),
            content: "</s>".to_string(),
            lstrip: false,
            normalized: false,
            rstrip: false,
            single_word: false,
            special: Some(true),
        }),
        legacy: None,
        model_max_length_bits: 0,
        pad_token: None,
        sp_model_kwargs: HashMap::new(),
        spaces_between_special_tokens: false,
        tokenizer_class: "LlamaTokenizer".to_string(),
        truncation_size: None,
        unk_token: SpecialToken::Literal("<unk>".to_string()),
        use_default_system_prompt: false,
    }
}

fn message(role: &str, content: &str) -> HashMap<String, String> {
    let mut m = HashMap::new();
    m.insert("role".to_string(), role.to_string());
    m.insert("content".to_string(), content.to_string());
    m
}

fn tokenize_prompt(tokenizer: &Tokenizer, text: &str) -> Result<Vec<u32>, PipelineError> {
    tokenizer_outcome(
        tokenizer
            .encode(text, false)
            .map(|encoding| encoding.get_ids().to_vec())
            .map_err(|e| e.to_string()),
    )
}

fn decode_tokens(tokenizer: &Tokenizer, tokens: &Vec<u32>) -> Result<Vec<u8>, PipelineError> {
    tokenizer_outcome(
        tokenizer.decode(tokens, false).map(|text| text_bytes(&text)).map_err(|e| e.to_string()),
    )
}

fn answer(id: usize) -> CompletionResponse {
    CompletionResponse {
        request_id: id,
        full_text: "done".as_bytes().to_vec(),
        tokens: vec![4, 5],
        stop_reason: StopReason::Eos,
        usage: Usage { prompt_tokens: 3, completion_tokens: 2, total_tokens: 5 },
    }
}

fn piece(id: usize) -> ChunkResponse {
    ChunkResponse { request_id: id, delta_text: "d".as_bytes().to_vec(), delta_tokens: vec![4] }
}

fn oai_request() -> CompletionRequest {
    CompletionRequest {
        model: "llama".to_string(),
        prompt: "Once upon a time".to_string(),
        presence_penalty: Some(0x3F000000),
        frequency_penalty: Some(0x3E800000),
        logit_bias: Some(HashMap::from([(17u32, 0x40000000u32)])),
        logprobs: None,
        max_tokens: Some(32),
        n_choices: 1,
        stop_seqs: None,
        stream: None,
        temperature: Some(0x3FE0000000000000),
        top_p: Some(0x3FECCCCCCCCCCCCD),
        top_k: Some(40),
        grammar: None,
    }
}

#[test]
fn prompt_is_tokenized_by_the_tokenizer() {
    let tokenizer = word_tokenizer(true);
    assert_eq!(tokenize_prompt(&tokenizer, "the quick fox !").unwrap(), vec![1, 2, 3, 4]);
    assert_eq!(tokenize_prompt(&tokenizer, "the slow fox").unwrap(), vec![1, 0, 3]);
    assert_eq!(tokenize_prompt(&tokenizer, "").unwrap(), Vec::<u32>::new());
}

#[test]
fn unmappable_prompt_is_a_tokenizer_error() {
    let tokenizer = word_tokenizer(false);
    match tokenize_prompt(&tokenizer, "the slow fox") {
        Err(PipelineError::Tokenizer(message)) => assert!(!message.is_empty()),
        other => panic!("unexpected outcome {:?}", other),
    }
}

#[test]
fn tokenizer_outcome_keeps_values_and_wraps_messages() {
    assert_eq!(tokenizer_outcome(Ok(vec![4u32, 5])).unwrap(), vec![4, 5]);
    assert_eq!(tokenizer_outcome(Ok("text".as_bytes().to_vec())).unwrap(), "text".as_bytes());
    match tokenizer_outcome::<Vec<u32>>(Err("no such token".to_string())) {
        Err(PipelineError::Tokenizer(message)) => assert_eq!(message, "no such token"),
        other => panic!("unexpected outcome {:?}", other),
    }
}

#[test]
fn tokens_are_decoded_by_the_tokenizer() {
    let tokenizer = word_tokenizer(true);
    assert_eq!(decode_tokens(&tokenizer, &vec![1, 2, 3]).unwrap(), "the quick fox".as_bytes());
    assert_eq!(decode_tokens(&tokenizer, &vec![]).unwrap(), "".as_bytes());
    let ids = tokenize_prompt(&tokenizer, "fox the !").unwrap();
    assert_eq!(decode_tokens(&tokenizer, &ids).unwrap(), "fox the !".as_bytes());
}

#[test]
fn chat_template_is_rendered() {
    let t = template(Some(
        "{{ bos_token }}{% for m in messages %}[{{ m.role }}] {{ m.content }}{{ eos_token }}{% endfor %}{% if add_generation_prompt %}[assistant]{% endif %}{{ unk_token }}",
    ));
    let messages = vec![message("user", "Hi"), message("assistant", "Hello")];
    assert_eq!(
        apply_chat_template(&t, &messages, true).unwrap(),
        "<s>[user] Hi</s>[assistant] Hello</s>[assistant]<unk>"
    );
    assert_eq!(
        apply_chat_template(&t, &messages, false).unwrap(),
        "<s>[user] Hi</s>[assistant] Hello</s><unk>"
    );
    assert_eq!(apply_chat_template(&t, &vec![], false).unwrap(), "<s><unk>");
}

#[test]
fn fields_of_a_message_are_found_by_name() {
    let t = template(Some("{% for m in messages %}{{ m.name }}:{{ m.content }};{% endfor %}"));
    let mut first = message("user", "one");
    first.insert("name".to_string(), "ann".to_string());
    let mut second = message("user", "two");
    second.insert("name".to_string(), "bob".to_string());
    assert_eq!(apply_chat_template(&t, &vec![first, second], false).unwrap(), "ann:one;bob:two;");
}

#[test]
fn prompt_text_is_the_prompt_or_the_rendered_chat() {
    let t = template(Some(
        "{% for m in messages %}<{{ m.role }}>{{ m.content }}{% endfor %}{% if add_generation_prompt %}<assistant>{% endif %}",
    ));
    let plain = RequestMessage::Completion("Once upon a time".to_string());
    assert_eq!(prompt_text(&t, &plain).unwrap(), "Once upon a time");
    // a completion needs no template
    assert_eq!(prompt_text(&template(None), &plain).unwrap(), "Once upon a time");
    let empty = RequestMessage::Completion(String::new());
    assert_eq!(prompt_text(&t, &empty).unwrap(), "");

    let chat = RequestMessage::Chat(vec![message("user", "Hi")]);
    assert_eq!(prompt_text(&t, &chat).unwrap(), "<user>Hi<assistant>");
    assert!(matches!(prompt_text(&template(None), &chat), Err(PipelineError::NoChatTemplate)));
    assert!(matches!(
        prompt_text(&template(Some("{% for m in %}")), &chat),
        Err(PipelineError::Template(_))
    ));
}

#[test]
fn chat_template_errors_are_told_apart() {
    let messages = vec![message("user", "Hi")];
    assert!(matches!(
        apply_chat_template(&template(None), &messages, true),
        Err(PipelineError::NoChatTemplate)
    ));
    match apply_chat_template(&template(Some("{% for m in %}")), &messages, true) {
        Err(PipelineError::Template(message)) => assert!(!message.is_empty()),
        other => panic!("unexpected outcome {:?}", other),
    }
    match apply_chat_template(&template(Some("{{ no_such_function() }}")), &messages, true) {
        Err(PipelineError::Template(message)) => assert!(!message.is_empty()),
        other => panic!("unexpected outcome {:?}", other),
    }
    assert_eq!(finish_chat_template(Ok("text".to_string())).unwrap(), "text");
}

#[test]
fn special_token_is_read_either_way() {
    let t = template(None);
    assert_eq!(special_token_text(&t.bos_token), "<s>");
    assert_eq!(special_token_text(&t.eos_token), "</s>");
    assert_eq!(text_bytes("né"), vec![0x6E, 0xC3, 0xA9]);
    assert_eq!(text_bytes(""), Vec::<u8>::new());
}

#[test]
fn chat_template_comes_from_the_first_place_that_has_one() {
    let stored = Some("{{ messages }}".to_string());
    assert!(matches!(chat_template_source(&stored, &None), TemplateSource::Stored));
    assert!(matches!(
        chat_template_source(&stored, &Some("other.json".to_string())),
        TemplateSource::Stored
    ));
    assert!(matches!(
        chat_template_source(&None, &Some("chat/llama.json".to_string())),
        TemplateSource::SpecifiedFile(name) if name == "chat/llama.json"
    ));
    assert!(matches!(
        chat_template_source(&None, &Some("{{ bos_token }}".to_string())),
        TemplateSource::SpecifiedLiteral(text) if text == "{{ bos_token }}"
    ));
    assert!(matches!(
        chat_template_source(&None, &Some(".json.txt".to_string())),
        TemplateSource::SpecifiedLiteral(_)
    ));
    assert!(matches!(
        chat_template_source(&None, &Some(".json".to_string())),
        TemplateSource::SpecifiedFile(_)
    ));
    assert!(matches!(chat_template_source(&None, &None), TemplateSource::DefaultFile));
}

#[test]
fn plain_kinds_exist() {
    let kinds = [
        ModelKind::Normal,
        ModelKind::XLoraNormal,
        ModelKind::XLoraGGUF,
        ModelKind::XLoraGGML,
        ModelKind::QuantizedGGUF,
        ModelKind::QuantizedGGML,
    ];
    assert_eq!(kinds.len(), 6);
    assert_ne!(ModelKind::Normal, ModelKind::QuantizedGGUF);
    let sources = [
        TokenSource::Literal("t".to_string()),
        TokenSource::EnvVar("HF_TOKEN".to_string()),
        TokenSource::Path("/tmp/token".to_string()),
        TokenSource::CacheToken,
    ];
    assert!(matches!(sources[3], TokenSource::CacheToken));
    assert!(matches!(&sources[1], TokenSource::EnvVar(name) if name == "HF_TOKEN"));
}

#[test]
fn greedy_means_temperature_zero() {
    let mut p = SamplingParams {
        temperature: Some(0.0f64.to_bits()),
        top_k: None,
        top_p: None,
        top_n_logprobs: 1,
        frequency_penalty: None,
        presence_penalty: None,
        max_len: None,
        stop_toks: None,
        logits_bias: None,
        n_choices: 1,
    };
    assert!(p.is_greedy());
    p.temperature = Some((-0.0f64).to_bits());
    assert!(p.is_greedy());
    p.temperature = Some(0.7f64.to_bits());
    assert!(!p.is_greedy());
    p.temperature = Some(f64::MIN_POSITIVE.to_bits());
    assert!(!p.is_greedy());
    p.temperature = None;
    assert!(!p.is_greedy());
}

#[test]
fn sampling_params_are_validated() {
    let good = SamplingParams {
        temperature: Some(0.7f64.to_bits()),
        top_k: Some(40),
        top_p: Some(1.0f64.to_bits()),
        top_n_logprobs: 1,
        frequency_penalty: Some((-0.5f32).to_bits()),
        presence_penalty: Some(2.0f32.to_bits()),
        max_len: None,
        stop_toks: None,
        logits_bias: None,
        n_choices: 1,
    };
    assert_eq!(good.validate(), Ok(()));
    let with = |change: fn(&mut SamplingParams)| {
        let mut p = good.clone();
        change(&mut p);
        p.validate()
    };
    assert_eq!(with(|p| p.temperature = None), Ok(()));
    assert_eq!(with(|p| p.temperature = Some(0.0f64.to_bits())), Ok(()));
    assert_eq!(with(|p| p.temperature = Some((-0.0f64).to_bits())), Ok(()));
    assert_eq!(with(|p| p.temperature = Some(f64::MAX.to_bits())), Ok(()));
    assert_eq!(with(|p| p.temperature = Some((-0.1f64).to_bits())), Err(ParamError::Temperature));
    assert_eq!(with(|p| p.temperature = Some(f64::NAN.to_bits())), Err(ParamError::Temperature));
    assert_eq!(
        with(|p| p.temperature = Some(f64::INFINITY.to_bits())),
        Err(ParamError::Temperature)
    );
    assert_eq!(with(|p| p.top_p = None), Ok(()));
    assert_eq!(with(|p| p.top_p = Some(f64::MIN_POSITIVE.to_bits())), Ok(()));
    assert_eq!(with(|p| p.top_p = Some(0.0f64.to_bits())), Err(ParamError::TopP));
    assert_eq!(with(|p| p.top_p = Some(1.0000001f64.to_bits())), Err(ParamError::TopP));
    assert_eq!(with(|p| p.top_p = Some((-0.5f64).to_bits())), Err(ParamError::TopP));
    assert_eq!(with(|p| p.top_p = Some(f64::NAN.to_bits())), Err(ParamError::TopP));
    assert_eq!(with(|p| p.frequency_penalty = Some(f32::MIN.to_bits())), Ok(()));
    assert_eq!(with(|p| p.frequency_penalty = Some(f32::NAN.to_bits())), Err(ParamError::Penalty));
    assert_eq!(
        with(|p| p.presence_penalty = Some(f32::NEG_INFINITY.to_bits())),
        Err(ParamError::Penalty)
    );
    assert_eq!(
        with(|p| p.presence_penalty = Some(f32::INFINITY.to_bits())),
        Err(ParamError::Penalty)
    );
    assert_eq!(with(|p| p.presence_penalty = Some((-f32::NAN).to_bits())), Err(ParamError::Penalty));
    assert_eq!(with(|p| p.n_choices = 0), Err(ParamError::Choices));
    // the first fault is the one told
    assert_eq!(
        with(|p| {
            p.n_choices = 0;
            p.top_p = Some(2.0f64.to_bits());
        }),
        Err(ParamError::TopP)
    );
}

#[test]
fn stop_conditions_come_from_the_sampling_params() {
    let mut p = SamplingParams {
        temperature: None,
        top_k: None,
        top_p: None,
        top_n_logprobs: 1,
        frequency_penalty: None,
        presence_penalty: None,
        max_len: Some(12),
        stop_toks: Some(StopTokens::Seqs(vec!["END".to_string(), "é".to_string()])),
        logits_bias: None,
        n_choices: 1,
    };
    let stop = p.stop_conditions(2);
    assert_eq!(stop.eos_token, 2);
    assert_eq!(stop.max_new_tokens, Some(12));
    assert_eq!(stop.stop_strings, vec![vec![0x45, 0x4E, 0x44], vec![0xC3, 0xA9]]);
    assert!(stop.stop_token_ids.is_empty());

    p.stop_toks = Some(StopTokens::Ids(vec![7, 8]));
    p.max_len = None;
    let stop = p.stop_conditions(5);
    assert_eq!(stop.stop_token_ids, vec![7, 8]);
    assert!(stop.stop_strings.is_empty());
    assert_eq!(stop.max_new_tokens, None);

    p.stop_toks = None;
    let stop = p.stop_conditions(5);
    assert!(stop.stop_token_ids.is_empty());
    assert!(stop.stop_strings.is_empty());
}

#[test]
fn request_is_parsed_with_defaults() {
    let (tx, rx) = channel();
    let request = parse_request(oai_request(), 42, tx);
    assert_eq!(request.id, 42);
    assert!(matches!(&request.messages, RequestMessage::Completion(p) if p == "Once upon a time"));
    assert_eq!(request.sampling_params.temperature, Some(0.5f64.to_bits()));
    assert_eq!(request.sampling_params.top_p, Some(0.9f64.to_bits()));
    assert_eq!(request.sampling_params.top_k, Some(40));
    assert_eq!(request.sampling_params.top_n_logprobs, 1);
    assert_eq!(request.sampling_params.frequency_penalty, Some(0.25f32.to_bits()));
    assert_eq!(request.sampling_params.presence_penalty, Some(0.5f32.to_bits()));
    assert_eq!(request.sampling_params.max_len, Some(32));
    assert!(request.sampling_params.stop_toks.is_none());
    assert_eq!(
        request.sampling_params.logits_bias,
        Some(HashMap::from([(17u32, 2.0f32.to_bits())]))
    );
    assert_eq!(request.sampling_params.n_choices, 1);
    assert!(!request.return_logprobs);
    assert!(!request.is_streaming);
    assert!(matches!(request.constraint, Constraint::Unconstrained));
    assert_eq!(request.request_type, RequestType::Completion);
    // the responses go to the sink that was handed in
    request.response.send(Response::InternalError("ping".to_string())).unwrap();
    assert!(matches!(rx.try_recv(), Ok(Response::InternalError(_))));
}

#[test]
fn request_stop_tokens_become_lists() {
    let parse = |stop_seqs: Option<RequestStopTokens>| -> Request {
        let (tx, _rx) = channel();
        parse_request(CompletionRequest { stop_seqs, ..oai_request() }, 1, tx)
    };
    let multi = parse(Some(RequestStopTokens::Multi(vec!["a".to_string(), "b".to_string()])));
    assert!(
        matches!(&multi.sampling_params.stop_toks, Some(StopTokens::Seqs(s)) if s == &vec!["a".to_string(), "b".to_string()])
    );
    let single = parse(Some(RequestStopTokens::Single("END".to_string())));
    assert!(
        matches!(&single.sampling_params.stop_toks, Some(StopTokens::Seqs(s)) if s == &vec!["END".to_string()])
    );
    let ids = parse(Some(RequestStopTokens::MultiId(vec![3, 4])));
    assert!(matches!(&ids.sampling_params.stop_toks, Some(StopTokens::Ids(s)) if s == &vec![3, 4]));
    let id = parse(Some(RequestStopTokens::SingleId(9)));
    assert!(matches!(&id.sampling_params.stop_toks, Some(StopTokens::Ids(s)) if s == &vec![9]));
}

#[test]
fn request_options_are_taken_over() {
    let (tx, _rx) = channel();
    let request = parse_request(
        CompletionRequest {
            logprobs: Some(5),
            stream: Some(true),
            grammar: Some(Grammar::Regex("[0-9]+".to_string())),
            ..oai_request()
        },
        1,
        tx,
    );
    assert_eq!(request.sampling_params.top_n_logprobs, 5);
    assert!(request.return_logprobs);
    assert!(request.is_streaming);
    assert!(matches!(&request.constraint, Constraint::Regex(r) if r == "[0-9]+"));

    let (tx, _rx) = channel();
    let request = parse_request(
        CompletionRequest {
            stream: Some(false),
            grammar: Some(Grammar::Yacc("start: ;".to_string())),
            ..oai_request()
        },
        1,
        tx,
    );
    assert!(!request.is_streaming);
    assert!(matches!(&request.constraint, Constraint::Yacc(y) if y == "start: ;"));
}

#[test]
fn stream_ends_with_its_first_terminal_message() {
    let (tx, rx) = channel();
    let mut streamer = Streamer::new(rx);
    assert!(!streamer.is_done());
    assert!(matches!(streamer.poll_next(), StreamItem::Pending));
    tx.send(Response::CompletionChunk(piece(1))).unwrap();
    tx.send(Response::CompletionChunk(piece(1))).unwrap();
    tx.send(Response::CompletionDone(answer(1))).unwrap();
    tx.send(Response::CompletionChunk(piece(1))).unwrap();
    assert!(matches!(streamer.poll_next(), StreamItem::Event(Response::CompletionChunk(_))));
    assert!(matches!(streamer.poll_next(), StreamItem::Event(Response::CompletionChunk(_))));
    assert!(!streamer.is_done());
    assert!(matches!(streamer.poll_next(), StreamItem::LastEvent(Response::CompletionDone(_))));
    assert!(streamer.is_done());
    assert!(matches!(streamer.poll_next(), StreamItem::Closed));
    assert!(matches!(streamer.poll_next(), StreamItem::Closed));
}

#[test]
fn stream_waits_when_the_sender_is_gone() {
    let (tx, rx) = channel::<Response>();
    let mut streamer = Streamer::new(rx);
    drop(tx);
    assert!(matches!(streamer.poll_next(), StreamItem::Pending));
    assert!(!streamer.is_done());
}

#[test]
fn every_error_ends_a_stream() {
    let errors = vec![
        Response::InternalError("a".to_string()),
        Response::ValidationError("b".to_string()),
        Response::ModelError("c".to_string(), answer(1)),
        Response::CompletionModelError("d".to_string(), answer(1)),
        Response::Done(answer(1)),
    ];
    for e in errors {
        let (_tx, rx) = channel();
        let mut streamer = Streamer::new(rx);
        assert!(matches!(streamer.on_arrival(Some(e)), StreamItem::LastEvent(_)));
        assert!(streamer.is_done());
        assert!(matches!(
            streamer.on_arrival(Some(Response::Chunk(piece(1)))),
            StreamItem::Closed
        ));
    }
    let (_tx, rx) = channel();
    let mut streamer = Streamer::new(rx);
    assert!(matches!(streamer.on_arrival(None), StreamItem::Pending));
    assert!(matches!(streamer.on_arrival(Some(Response::Chunk(piece(1)))), StreamItem::Event(_)));
    assert!(!streamer.is_done());
}

#[test]
fn answers_carry_their_status() {
    assert_eq!(STATUS_OK, 200);
    assert_eq!(STATUS_UNPROCESSABLE_ENTITY, 422);
    assert_eq!(STATUS_INTERNAL_SERVER_ERROR, 500);
    let status = |r: Response| CompletionResponder::from_response(r).map(|a| a.status());
    assert_eq!(status(Response::CompletionDone(answer(1))), Some(200));
    assert_eq!(status(Response::Done(answer(1))), Some(200));
    assert_eq!(status(Response::ValidationError("v".to_string())), Some(422));
    assert_eq!(status(Response::InternalError("i".to_string())), Some(500));
    assert_eq!(status(Response::ModelError("m".to_string(), answer(1))), Some(500));
    assert_eq!(status(Response::CompletionModelError("m".to_string(), answer(1))), Some(500));
    assert_eq!(status(Response::Chunk(piece(1))), None);
    assert_eq!(status(Response::CompletionChunk(piece(1))), None);
    let (_tx, rx) = channel();
    assert_eq!(CompletionResponder::Sse(Streamer::new(rx)).status(), 200);
}

#[test]
fn answers_keep_what_the_engine_sent() {
    match CompletionResponder::from_response(Response::CompletionModelError(
        "oops".to_string(),
        answer(3),
    )) {
        Some(CompletionResponder::ModelError(message, partial)) => {
            assert_eq!(message, "oops");
            assert_eq!(partial.request_id, 3);
            assert_eq!(partial.tokens, vec![4, 5]);
        }
        _ => panic!("unexpected answer"),
    }
    match CompletionResponder::from_response(Response::CompletionDone(answer(4))) {
        Some(CompletionResponder::Json(done)) => assert_eq!(done.request_id, 4),
        _ => panic!("unexpected answer"),
    }
    match CompletionResponder::from_response(Response::ValidationError("too long".to_string())) {
        Some(CompletionResponder::ValidationError(message)) => assert_eq!(message, "too long"),
        _ => panic!("unexpected answer"),
    }
    match CompletionResponder::from_response(Response::InternalError("lost".to_string())) {
        Some(CompletionResponder::InternalError(message)) => assert_eq!(message, "lost"),
        _ => panic!("unexpected answer"),
    }
}

#[test]
fn error_bodies_hold_their_parts() {
    let e = JsonError::new("bad request".to_string());
    assert_eq!(e.message, "bad request");
    let m = JsonModelError::new("model failed".to_string(), answer(8));
    assert_eq!(m.message, "model failed");
    assert_eq!(m.partial_response.request_id, 8);
    assert_eq!(m.partial_response.full_text, "done".as_bytes().to_vec());
}

#[test]
fn terminal_messages_are_everything_but_chunks() {
    assert!(!Response::Chunk(piece(1)).is_terminal());
    assert!(!Response::CompletionChunk(piece(1)).is_terminal());
    assert!(Response::Done(answer(1)).is_terminal());
    assert!(Response::CompletionDone(answer(1)).is_terminal());
    assert!(Response::ModelError("m".to_string(), answer(1)).is_terminal());
    assert!(Response::CompletionModelError("m".to_string(), answer(1)).is_terminal());
    assert!(Response::ValidationError("v".to_string()).is_terminal());
    assert!(Response::InternalError("i".to_string()).is_terminal());
}

#[test]
fn handle_gives_out_senders_to_the_same_channel() {
    let (tx, rx) = channel();
    let handle = MistralRs::new(tx, true);
    assert!(handle.is_logging());
    let sender = handle.get_sender();
    let (resp_tx, _resp_rx) = channel();
    sender.send(parse_request(oai_request(), 5, resp_tx)).unwrap();
    let (resp_tx, _resp_rx) = channel();
    handle.get_sender().send(parse_request(oai_request(), 6, resp_tx)).unwrap();
    assert_eq!(rx.recv().unwrap().id, 5);
    assert_eq!(rx.recv().unwrap().id, 6);
    assert!(!MistralRs::new(channel().0, false).is_logging());
}
