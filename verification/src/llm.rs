//! What the assistant computes around the local language-model server: the
//! server's address and command line, the decisions taken while waiting for
//! it to come up, the prompts sent to it and the cleaning of its answers.
use vstd::prelude::*;
use vstd::utf8::decode_utf8;
use vstd::utf8::encode_utf8;
use vstd::utf8::encode_utf8_decode_utf8;
use vstd::utf8::is_char_boundary;

use crate::text::chars_of;
use crate::text::decimal;
use crate::text::push_decimal;
use crate::text::push_str;
use crate::text::string_from_chars;
use crate::text::strip_prefix;
use crate::text::strip_prefix_chars;
use crate::text::strip_suffix;
use crate::text::strip_suffix_chars;
use crate::text::lemma_trim_idempotent;
use crate::text::occurs_at;
use crate::text::trim;
use crate::text::trim_chars;

verus! {

// ---------------------------------------------------------------------------
// The server
// ---------------------------------------------------------------------------

/// The port the local llama-server listens on.
pub const LLM_SERVER_PORT: u16 = 8080;

/// The endpoint that lists the served models; an answer on it means that
/// the server is up.
pub const MODELS_PATH: &'static str = "/v1/models";

/// The chat-completion endpoint.
pub const CHAT_COMPLETIONS_PATH: &'static str = "/v1/chat/completions";

/// How many times the server is checked, one second apart, before the wait
/// for it is given up.
pub const MAX_WAIT_ATTEMPTS: u32 = 60;

/// What `wait_for_server` reports when the server never answered.
pub const WAIT_TIMEOUT_ERROR: &'static str = "llama-server failed to start within 60 seconds";

/// The URL of `path` on the local server.
pub open spec fn server_url_spec(path: Seq<char>) -> Seq<char> {
    "http://127.0.0.1:"@ + decimal(LLM_SERVER_PORT as nat) + path
}

/// The URL of `path` on the local server.
pub fn server_url(path: &str) -> (url: String)
    ensures
        url@ == server_url_spec(path@),
{
    let mut v: Vec<char> = Vec::new();
    push_str(&mut v, "http://127.0.0.1:");
    push_decimal(LLM_SERVER_PORT as u64, &mut v);
    push_str(&mut v, path);
    proof {
        assert(Seq::<char>::empty() + "http://127.0.0.1:"@ =~= "http://127.0.0.1:"@);
    }
    string_from_chars(&v)
}

/// The arguments the server is started with: the model, the loopback
/// address, the port, a context of 2048 tokens and 99 layers on the GPU.
pub open spec fn server_args_spec(model_path: Seq<char>) -> Seq<Seq<char>> {
    seq![
        "-m"@,
        model_path,
        "--host"@,
        "127.0.0.1"@,
        "--port"@,
        decimal(LLM_SERVER_PORT as nat),
        "-c"@,
        "2048"@,
        "-ngl"@,
        "99"@,
    ]
}

/// Law: the server is started with ten arguments; the first is "-m" and the
/// second is the model path itself, unchanged; the others are the same
/// whatever the model path.
pub proof fn lemma_server_args_model_path(model_path: Seq<char>, other_path: Seq<char>)
    ensures
        server_args_spec(model_path).len() == 10,
        server_args_spec(model_path)[0] == "-m"@,
        server_args_spec(model_path)[1] == model_path,
        forall|i: int|
            0 <= i < 10 && i != 1 ==> #[trigger] server_args_spec(model_path)[i]
                == server_args_spec(other_path)[i],
{
}

/// The contents of a sequence of strings.
pub open spec fn strings_view(v: Seq<String>) -> Seq<Seq<char>> {
    v.map_values(|s: String| s@)
}

fn push_owned(args: &mut Vec<String>, s: &str)
    ensures
        strings_view(final(args)@) == strings_view(old(args)@).push(s@),
{
    let owned = s.to_owned();
    args.push(owned);
    proof {
        assert(strings_view(args@) =~= strings_view(old(args)@).push(s@));
    }
}

/// The command-line arguments that start the server on `model_path`.
pub fn server_args(model_path: &str) -> (args: Vec<String>)
    ensures
        strings_view(args@) == server_args_spec(model_path@),
{
    let mut port: Vec<char> = Vec::new();
    push_decimal(LLM_SERVER_PORT as u64, &mut port);
    let port_text = string_from_chars(&port);
    proof {
        assert(Seq::<char>::empty() + decimal(LLM_SERVER_PORT as nat) =~= decimal(
            LLM_SERVER_PORT as nat,
        ));
    }
    let mut args: Vec<String> = Vec::new();
    push_owned(&mut args, "-m");
    push_owned(&mut args, model_path);
    push_owned(&mut args, "--host");
    push_owned(&mut args, "127.0.0.1");
    push_owned(&mut args, "--port");
    push_owned(&mut args, port_text.as_str());
    push_owned(&mut args, "-c");
    push_owned(&mut args, "2048");
    push_owned(&mut args, "-ngl");
    push_owned(&mut args, "99");
    proof {
        assert(strings_view(args@) =~= server_args_spec(model_path@));
    }
    args
}

// ---------------------------------------------------------------------------
// Waiting for the server
// ---------------------------------------------------------------------------

/// What to do after checking whether the server answers.
#[derive(Debug, Clone, Copy, PartialEq, Eq)]
pub enum WaitAction {
    /// The server answers: stop waiting.
    Ready,
    /// Sleep a second, report `checks_done` checks, then check again.
    SleepAndRetry { checks_done: u32 },
    /// Sleep a second, report the last check, then give up.
    SleepAndGiveUp,
}

/// The decision after check number `attempt` (counted from 0).
pub open spec fn wait_action_spec(attempt: nat, server_running: bool) -> WaitAction {
    if server_running {
        WaitAction::Ready
    } else if attempt + 1 < MAX_WAIT_ATTEMPTS {
        WaitAction::SleepAndRetry { checks_done: (attempt + 1) as u32 }
    } else {
        WaitAction::SleepAndGiveUp
    }
}

/// Decides what follows check number `attempt` (counted from 0) of the
/// server, which found it answering or not.
pub fn next_wait_action(attempt: u32, server_running: bool) -> (a: WaitAction)
    requires
        attempt < MAX_WAIT_ATTEMPTS,
    ensures
        a == wait_action_spec(attempt as nat, server_running),
{
    if server_running {
        WaitAction::Ready
    } else if attempt + 1 < MAX_WAIT_ATTEMPTS {
        WaitAction::SleepAndRetry { checks_done: attempt + 1 }
    } else {
        WaitAction::SleepAndGiveUp
    }
}

/// Whether waiting, from check number `attempt` on, ends with the server
/// ready, when the successive checks find it answering as `responses` says.
pub open spec fn wait_succeeds(responses: Seq<bool>, attempt: nat) -> bool
    decreases MAX_WAIT_ATTEMPTS - attempt,
{
    if attempt >= MAX_WAIT_ATTEMPTS || attempt >= responses.len() {
        false
    } else {
        match wait_action_spec(attempt, responses[attempt as int]) {
            WaitAction::Ready => true,
            WaitAction::SleepAndRetry { checks_done } => wait_succeeds(responses, checks_done as nat),
            WaitAction::SleepAndGiveUp => false,
        }
    }
}

proof fn lemma_wait_succeeds_from(responses: Seq<bool>, attempt: nat)
    requires
        responses.len() >= MAX_WAIT_ATTEMPTS,
        attempt <= MAX_WAIT_ATTEMPTS,
    ensures
        wait_succeeds(responses, attempt) <==> exists|i: int|
            attempt <= i < MAX_WAIT_ATTEMPTS && #[trigger] responses[i],
    decreases MAX_WAIT_ATTEMPTS - attempt,
{
    if attempt < MAX_WAIT_ATTEMPTS {
        lemma_wait_succeeds_from(responses, attempt + 1);
        if exists|i: int| attempt <= i < MAX_WAIT_ATTEMPTS && #[trigger] responses[i] {
            let i = choose|i: int| attempt <= i < MAX_WAIT_ATTEMPTS && #[trigger] responses[i];
            if i > attempt {
                assert(attempt + 1 <= i < MAX_WAIT_ATTEMPTS && responses[i]);
            }
        }
        if exists|i: int| attempt + 1 <= i < MAX_WAIT_ATTEMPTS && #[trigger] responses[i] {
            let i = choose|i: int| attempt + 1 <= i < MAX_WAIT_ATTEMPTS && #[trigger] responses[i];
            assert(attempt <= i < MAX_WAIT_ATTEMPTS && responses[i]);
        }
    }
}

/// Law: the server is checked at most `MAX_WAIT_ATTEMPTS` times, and the
/// wait ends with the server ready exactly when one of those checks finds it
/// answering.
pub proof fn lemma_wait_bounded(responses: Seq<bool>)
    requires
        responses.len() >= MAX_WAIT_ATTEMPTS,
    ensures
        wait_succeeds(responses, 0) <==> exists|i: int|
            0 <= i < MAX_WAIT_ATTEMPTS && #[trigger] responses[i],
{
    lemma_wait_succeeds_from(responses, 0);
}

/// The progress line reported after `checks_done` failed checks.
pub open spec fn wait_progress_spec(checks_done: nat) -> Seq<char> {
    "Waiting for llama-server to start... ("@ + decimal(checks_done) + "/"@ + decimal(
        MAX_WAIT_ATTEMPTS as nat,
    ) + ")"@
}

/// The progress line reported after `checks_done` failed checks.
pub fn wait_progress_message(checks_done: u32) -> (m: String)
    ensures
        m@ == wait_progress_spec(checks_done as nat),
{
    let mut v: Vec<char> = Vec::new();
    push_str(&mut v, "Waiting for llama-server to start... (");
    push_decimal(checks_done as u64, &mut v);
    push_str(&mut v, "/");
    push_decimal(MAX_WAIT_ATTEMPTS as u64, &mut v);
    push_str(&mut v, ")");
    proof {
        assert(Seq::<char>::empty() + "Waiting for llama-server to start... ("@
            =~= "Waiting for llama-server to start... ("@);
    }
    string_from_chars(&v)
}

// ---------------------------------------------------------------------------
// Prompts
// ---------------------------------------------------------------------------

/// The chat prompt that puts the user's question after their financial
/// context.
pub open spec fn context_prompt_spec(prompt: Seq<char>, context: Seq<char>) -> Seq<char> {
    "You are a helpful financial assistant. Here is the user's financial context:\n"@ + context
        + "\n\nUser question: "@ + prompt
}

/// The chat prompt that puts the user's question after their financial
/// context.
pub fn chat_with_context_prompt(prompt: &str, context: &str) -> (r: String)
    ensures
        r@ == context_prompt_spec(prompt@, context@),
{
    let mut v: Vec<char> = Vec::new();
    push_str(&mut v, "You are a helpful financial assistant. Here is the user's financial context:\n");
    push_str(&mut v, context);
    push_str(&mut v, "\n\nUser question: ");
    push_str(&mut v, prompt);
    proof {
        assert(Seq::<char>::empty()
            + "You are a helpful financial assistant. Here is the user's financial context:\n"@
            =~= "You are a helpful financial assistant. Here is the user's financial context:\n"@);
    }
    string_from_chars(&v)
}

/// The financial snapshot given to the assistant: total spending and
/// subscriptions over the last 30 days and, when there is one, the top
/// spending category; the amounts come already written out.
pub open spec fn financial_context_spec(
    total_spending: Seq<char>,
    subscriptions: Seq<char>,
    top_category: Option<(Seq<char>, Seq<char>)>,
) -> Seq<char> {
    "User's financial snapshot (last 30 days):\n"@ + "- Total spending: PHP "@ + total_spending
        + "\n"@ + "- Monthly subscriptions: PHP "@ + subscriptions + "\n"@ + (match top_category {
        Some((name, amount)) => "- Top spending category: "@ + name + " (PHP "@ + amount
            + ")\n"@,
        None => Seq::empty(),
    }) + "Answer user questions based on this context."@
}

/// The financial snapshot given to the assistant.
pub fn financial_context(
    total_spending: &str,
    subscriptions: &str,
    top_category: Option<(&str, &str)>,
) -> (r: String)
    ensures
        r@ == financial_context_spec(
            total_spending@,
            subscriptions@,
            match top_category {
                Some((name, amount)) => Some((name@, amount@)),
                None => None,
            },
        ),
{
    let mut v: Vec<char> = Vec::new();
    push_str(&mut v, "User's financial snapshot (last 30 days):\n");
    push_str(&mut v, "- Total spending: PHP ");
    push_str(&mut v, total_spending);
    push_str(&mut v, "\n");
    push_str(&mut v, "- Monthly subscriptions: PHP ");
    push_str(&mut v, subscriptions);
    push_str(&mut v, "\n");
    let ghost before_top = v@;
    match top_category {
        Some((name, amount)) => {
            push_str(&mut v, "- Top spending category: ");
            push_str(&mut v, name);
            push_str(&mut v, " (PHP ");
            push_str(&mut v, amount);
            push_str(&mut v, ")\n");
            proof {
                assert(v@ =~= before_top + ("- Top spending category: "@ + name@ + " (PHP "@
                    + amount@ + ")\n"@));
            }
        },
        None => {
            assert(v@ =~= before_top + Seq::<char>::empty());
        },
    }
    push_str(&mut v, "Answer user questions based on this context.");
    proof {
        assert(Seq::<char>::empty() + "User's financial snapshot (last 30 days):\n"@
            =~= "User's financial snapshot (last 30 days):\n"@);
    }
    string_from_chars(&v)
}

/// The instructions that ask the model to read a receipt.
pub const RECEIPT_PROMPT: &'static str = r#"You are a receipt parser. Extract structured data from this receipt.
Return ONLY valid JSON with this exact structure, no markdown:
{
  "vendor": "string or null",
  "total": number,
  "tax": number,
  "discount": number,
  "items": [
    { "name": "string", "price": number, "quantity": number }
  ],
  "suggested_category": "string"
}
Rules:
- total, tax, discount are numbers (0 if not found)
- suggested_category is one of: Food, Transport, Shopping, Bills, Entertainment, Health, Other
- If unreadable, return vendor=null and all amounts=0"#;

/// How many bytes of the image encoding the receipt message shows.
pub const IMAGE_PREVIEW_BYTES: usize = 200;

/// The part of the image encoding the receipt message shows: all of it up to
/// `IMAGE_PREVIEW_BYTES` bytes, else its first `IMAGE_PREVIEW_BYTES` bytes
/// followed by a truncation mark.
pub open spec fn shown_image(image: Seq<char>) -> Seq<char> {
    let bytes = encode_utf8(image);
    if bytes.len() > IMAGE_PREVIEW_BYTES {
        decode_utf8(bytes.take(IMAGE_PREVIEW_BYTES as int)) + "... [truncated]"@
    } else {
        image
    }
}

/// The message that asks the model to read the receipt in `image_base64`.
pub open spec fn receipt_message_spec(image: Seq<char>) -> Seq<char> {
    RECEIPT_PROMPT@ + "\n\n[Receipt image base64: "@ + shown_image(image) + "]"@
}

/// The message that asks the model to read the receipt in `image_base64`.
/// When the encoding is longer than `IMAGE_PREVIEW_BYTES` bytes, that many
/// bytes must end on a character boundary.
pub fn receipt_extraction_message(image_base64: &str) -> (m: String)
    requires
        encode_utf8(image_base64@).len() > IMAGE_PREVIEW_BYTES ==> is_char_boundary(
            encode_utf8(image_base64@),
            IMAGE_PREVIEW_BYTES as int,
        ),
    ensures
        m@ == receipt_message_spec(image_base64@),
{
    let mut v: Vec<char> = Vec::new();
    push_str(&mut v, RECEIPT_PROMPT);
    push_str(&mut v, "\n\n[Receipt image base64: ");
    let ghost before = v@;
    let byte_count = image_base64.as_bytes().len();
    if byte_count > IMAGE_PREVIEW_BYTES {
        let (head, _rest) = image_base64.split_at(IMAGE_PREVIEW_BYTES);
        proof {
            encode_utf8_decode_utf8(head@);
            assert(encode_utf8(head@) =~= encode_utf8(image_base64@).take(
                IMAGE_PREVIEW_BYTES as int,
            ));
        }
        push_str(&mut v, head);
        push_str(&mut v, "... [truncated]");
        proof {
            assert(v@ =~= before + shown_image(image_base64@));
        }
    } else {
        push_str(&mut v, image_base64);
        proof {
            assert(v@ =~= before + shown_image(image_base64@));
        }
    }
    push_str(&mut v, "]");
    proof {
        assert(Seq::<char>::empty() + RECEIPT_PROMPT@ =~= RECEIPT_PROMPT@);
        assert(v@ =~= receipt_message_spec(image_base64@));
    }
    string_from_chars(&v)
}

/// Law: an image encoding of more than `IMAGE_PREVIEW_BYTES` bytes is shown
/// by its beginning: the characters whose encoding is its first
/// `IMAGE_PREVIEW_BYTES` bytes, then the truncation mark.
pub proof fn lemma_receipt_message_shows_start(image: Seq<char>)
    requires
        encode_utf8(image).len() > IMAGE_PREVIEW_BYTES,
        is_char_boundary(encode_utf8(image), IMAGE_PREVIEW_BYTES as int),
    ensures
        exists|j: int|
            0 <= j <= image.len() && encode_utf8(#[trigger] image.take(j)) == encode_utf8(
                image,
            ).take(IMAGE_PREVIEW_BYTES as int) && receipt_message_spec(image) == RECEIPT_PROMPT@
                + "\n\n[Receipt image base64: "@ + image.take(j) + "... [truncated]"@ + "]"@,
{
    let bytes = encode_utf8(image);
    let n = IMAGE_PREVIEW_BYTES as int;
    let head = bytes.subrange(0, n);
    let tail = bytes.subrange(n, bytes.len() as int);
    vstd::utf8::encode_utf8_valid_utf8(image);
    vstd::utf8::valid_utf8_split(bytes, n);
    vstd::utf8::decode_utf8_split(bytes, n);
    encode_utf8_decode_utf8(image);
    vstd::utf8::decode_utf8_encode_utf8(head);
    let shown = decode_utf8(head);
    assert(image =~= shown + decode_utf8(tail));
    let j = shown.len() as int;
    assert(image.take(j) =~= shown);
    assert(bytes.take(n) =~= head);
    assert(encode_utf8(image.take(j)) == bytes.take(n));
}

/// Law: an image encoding of at most `IMAGE_PREVIEW_BYTES` bytes is shown
/// whole, with no truncation mark.
pub proof fn lemma_receipt_message_shows_short_image(image: Seq<char>)
    requires
        encode_utf8(image).len() <= IMAGE_PREVIEW_BYTES,
    ensures
        receipt_message_spec(image) == RECEIPT_PROMPT@ + "\n\n[Receipt image base64: "@ + image
            + "]"@,
{
}

// ---------------------------------------------------------------------------
// Answers
// ---------------------------------------------------------------------------

/// The JSON text in the model's answer to a receipt message: the trimmed
/// answer, without a surrounding "```json ... ```" fence or a leading "```",
/// trimmed again when a fence was removed.
pub open spec fn receipt_json_spec(answer: Seq<char>) -> Seq<char> {
    let content = trim(answer);
    let fenced = match strip_prefix(trim(content), "```json"@) {
        Some(rest) => strip_suffix(rest, "```"@),
        None => None,
    };
    let unfenced = match fenced {
        Some(inner) => Some(inner),
        None => strip_prefix(content, "```"@),
    };
    match unfenced {
        Some(inner) => trim(inner),
        None => content,
    }
}

/// The JSON text in the model's answer to a receipt message.
pub fn receipt_json_text(answer: &str) -> (json: String)
    ensures
        json@ == receipt_json_spec(answer@),
{
    let content = trim_chars(&chars_of(answer));
    let again = trim_chars(&content);
    let json_open = chars_of("```json");
    let fence = chars_of("```");
    let fenced = match strip_prefix_chars(&again, &json_open) {
        Some(rest) => strip_suffix_chars(&rest, &fence),
        None => None,
    };
    let unfenced = match fenced {
        Some(inner) => Some(inner),
        None => strip_prefix_chars(&content, &fence),
    };
    match unfenced {
        Some(inner) => string_from_chars(&trim_chars(&inner)),
        None => string_from_chars(&content),
    }
}

/// Law: an answer that, once trimmed, does not start with "```" is taken
/// whole, trimmed.
pub proof fn lemma_receipt_json_unfenced(answer: Seq<char>)
    requires
        !occurs_at(trim(answer), "```"@, 0),
    ensures
        receipt_json_spec(answer) == trim(answer),
{
    reveal_strlit("```json");
    reveal_strlit("```");
    let content = trim(answer);
    lemma_trim_idempotent(answer);
    if occurs_at(content, "```json"@, 0) {
        assert(content.subrange(0, 3) =~= "```"@) by {
            assert forall|i: int| 0 <= i < 3 implies content.subrange(0, 3)[i] == "```"@[i] by {
                assert(content.subrange(0, 7)[i] == "```json"@[i]);
            }
        }
    }
}

/// Law: an answer that, once trimmed, is `m` between a "```json" line
/// opener and a closing "```" gives `m`, trimmed.
pub proof fn lemma_receipt_json_fenced(answer: Seq<char>, m: Seq<char>)
    requires
        trim(answer) == "```json"@ + m + "```"@,
    ensures
        receipt_json_spec(answer) == trim(m),
{
    reveal_strlit("```json");
    reveal_strlit("```");
    let content = trim(answer);
    lemma_trim_idempotent(answer);
    assert(content.subrange(0, 7) =~= "```json"@);
    let rest = content.subrange(7, content.len() as int);
    assert(rest =~= m + "```"@);
    assert(rest.subrange(rest.len() - 3, rest.len() as int) =~= "```"@);
    assert(rest.subrange(0, rest.len() - 3) =~= m);
}

/// Law: an answer that, once trimmed, is "```" followed by `m`, and is not
/// a whole "```json ... ```" block, gives `m`, trimmed.
pub proof fn lemma_receipt_json_open_fence(answer: Seq<char>, m: Seq<char>)
    requires
        trim(answer) == "```"@ + m,
        forall|m2: Seq<char>| trim(answer) != "```json"@ + m2 + "```"@,
    ensures
        receipt_json_spec(answer) == trim(m),
{
    reveal_strlit("```json");
    reveal_strlit("```");
    let content = trim(answer);
    lemma_trim_idempotent(answer);
    if let Some(rest) = strip_prefix(content, "```json"@) {
        if let Some(inner) = strip_suffix(rest, "```"@) {
            assert(content =~= "```json"@ + inner + "```"@) by {
                assert(content.subrange(0, 7) =~= "```json"@);
                assert(rest.subrange(rest.len() - 3, rest.len() as int) =~= "```"@);
            }
        }
    }
    assert(content.subrange(0, 3) =~= "```"@);
    assert(content.subrange(3, content.len() as int) =~= m);
}

} // verus!
