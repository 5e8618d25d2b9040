//! The conversation with the chat-completion service: the messages sent,
//! the text taken from the reply, how a reply is cleaned up, and which part
//! of a question is kept as a memory.
//!
//! Sending the request and reading the reply are I/O; everything that is
//! decided before and after is here.

use vstd::prelude::*;
use crate::context::{views, ContextMessage, ContextMessageView};
use crate::text::{
    chars_eq, chars_of, contains, contains_seq, copy_range, find,
    first_occurrence, lowercase_of, map_char, owned, replace_all, replace_char,
    replace_seq, seqs_of, string_from_chars, string_views, lemma_utf8_len_at_least_chars,
    is_ws, lemma_trim_end_within, lemma_trim_start_within, lemma_trim_twice, occurs_at, trim_end,
    trim_start, to_lowercase, trim_chars, trim_seq, utf8_len,
    utf8_len_of,
};

verus! {

/// Errors of the AI service.
pub enum AiError {
    /// The HTTP request failed; the text says why.
    RequestFailed(String),
    /// The service answered with something unusable; the text says why.
    ApiError(String),
    /// The service is not configured; the text says why.
    ConfigError(String),
}

impl AiError {
    /// The message shown for this error.
    pub fn message(&self) -> (res: String)
        ensures
            match self {
                AiError::RequestFailed(e) => res@ == "HTTP request failed: "@ + e@,
                AiError::ApiError(e) => res@ == "API error: "@ + e@,
                AiError::ConfigError(e) => res@ == "Configuration error: "@ + e@,
            },
    {
        match self {
            AiError::RequestFailed(e) => {
                let mut s = owned("HTTP request failed: ");
                s.append(e.as_str());
                s
            },
            AiError::ApiError(e) => {
                let mut s = owned("API error: ");
                s.append(e.as_str());
                s
            },
            AiError::ConfigError(e) => {
                let mut s = owned("Configuration error: ");
                s.append(e.as_str());
                s
            },
        }
    }
}

/// Who speaks in a message sent to the service.
#[derive(PartialEq, Eq, Structural, Clone, Copy, Debug)]
pub enum Role {
    System,
    User,
    Assistant,
}

impl Role {
    /// The name of a role on the wire.
    pub open spec fn wire_name(self) -> Seq<char> {
        match self {
            Role::System => "system"@,
            Role::User => "user"@,
            Role::Assistant => "assistant"@,
        }
    }

    /// The name of this role as the service expects it.
    pub fn name(&self) -> (res: String)
        ensures
            res@ == self.wire_name(),
    {
        match self {
            Role::System => owned("system"),
            Role::User => owned("user"),
            Role::Assistant => owned("assistant"),
        }
    }
}

/// A message sent to the service: plain text, or text and images in parts.
pub struct OpenRouterMessage {
    pub role: Role,
    pub content: Option<String>,
    pub parts: Option<Vec<ContentPart>>,
}

/// One part of a message with images.
pub struct ContentPart {
    pub part_type: String,
    pub text: Option<String>,
    pub image_url: Option<ImageUrl>,
}

/// The address of an image shown to the service.
pub struct ImageUrl {
    pub url: String,
}

/// The service's answer.
pub struct ChatCompletionResponse {
    pub choices: Vec<Choice>,
    pub usage: Option<Usage>,
}

/// One answer among those the service gave.
pub struct Choice {
    pub message: ResponseMessage,
}

/// The text of an answer.
pub struct ResponseMessage {
    pub role: Option<String>,
    pub content: Option<String>,
}

/// How many tokens a request used.
pub struct Usage {
    pub prompt_tokens: Option<u32>,
    pub completion_tokens: Option<u32>,
    pub total_tokens: Option<u32>,
}

// ------------------------------------------------------------------
// The reply
// ------------------------------------------------------------------

/// The reply used when the service gives none, or one too short to use.
pub open spec fn fallback_reply() -> Seq<char> {
    "Your weak words echo in the void."@
}

/// The text of the first answer, or the fallback reply when there is none.
pub open spec fn reply_of(resp: ChatCompletionResponse) -> Seq<char> {
    if resp.choices@.len() > 0 && resp.choices@[0].message.content is Some {
        resp.choices@[0].message.content.unwrap()@
    } else {
        fallback_reply()
    }
}

/// The text of the first answer in a reply, or the fallback reply.
pub fn reply_text(resp: &ChatCompletionResponse) -> (res: String)
    ensures
        res@ == reply_of(*resp),
{
    if resp.choices.len() > 0 {
        match &resp.choices[0].message.content {
            Some(c) => c.clone(),
            None => owned("Your weak words echo in the void."),
        }
    } else {
        owned("Your weak words echo in the void.")
    }
}

/// What follows the first `AM:`, trimmed; the whole text when there is none.
pub open spec fn after_answer_mark(s: Seq<char>) -> Seq<char> {
    match first_occurrence(s, "AM:"@) {
        Some(i) => trim_seq(s.skip(i + 3)),
        None => s,
    }
}

/// What precedes the first `Human:`, trimmed; the whole text when there is none.
pub open spec fn before_human_mark(s: Seq<char>) -> Seq<char> {
    match first_occurrence(s, "Human:"@) {
        Some(i) => trim_seq(s.take(i)),
        None => s,
    }
}

/// A reply cleaned up: the part after `AM:` and before `Human:`, on one line
/// and trimmed; the fallback reply when fewer than three bytes remain.
pub open spec fn cleaned_reply(s: Seq<char>) -> Seq<char> {
    let t = trim_seq(map_char(before_human_mark(after_answer_mark(s)), '\n', ' '));
    if utf8_len(t) < 3 {
        fallback_reply()
    } else {
        t
    }
}

fn strip_answer_mark(v: &Vec<char>) -> (res: Vec<char>)
    ensures
        res@ == after_answer_mark(v@),
{
    let am = chars_of("AM:");
    assert(am@.len() == 3) by {
        reveal_strlit("AM:");
    }
    match find(v, &am) {
        Some(i) => {
            let n = v.len();
            let rest = copy_range(v, i + am.len(), n);
            assert(rest@ =~= v@.skip(i + am@.len()));
            trim_chars(&rest)
        },
        None => copy_range(v, 0, v.len()),
    }
}

fn strip_human_mark(v: &Vec<char>) -> (res: Vec<char>)
    ensures
        res@ == before_human_mark(v@),
{
    let human = chars_of("Human:");
    match find(v, &human) {
        Some(i) => {
            let head = copy_range(v, 0, i);
            assert(head@ =~= v@.take(i as int));
            trim_chars(&head)
        },
        None => copy_range(v, 0, v.len()),
    }
}

/// A cleaned-up reply is at least three bytes long and on one line.
pub proof fn law_cleaned_reply_is_one_nonempty_line(s: Seq<char>)
    ensures
        utf8_len(cleaned_reply(s)) >= 3,
        !cleaned_reply(s).contains('\n'),
{
    let m = map_char(before_human_mark(after_answer_mark(s)), '\n', ' ');
    let t = trim_seq(m);
    if utf8_len(t) < 3 {
        reveal_strlit("Your weak words echo in the void.");
        lemma_utf8_len_at_least_chars(fallback_reply());
        assert(fallback_reply().len() == 33);
        if fallback_reply().contains('\n') {
            let k = choose|k: int| 0 <= k < fallback_reply().len() && fallback_reply()[k] == '\n';
            assert(false);
        }
    } else {
        lemma_trim_end_within(trim_start(m), '\n');
        lemma_trim_start_within(m, '\n');
        if m.contains('\n') {
            let k = choose|k: int| 0 <= k < m.len() && m[k] == '\n';
            assert(false);
        }
    }
}

proof fn lemma_trim_start_is_suffix(s: Seq<char>) -> (k: int)
    ensures
        0 <= k <= s.len(),
        trim_start(s) == s.skip(k),
    decreases s.len(),
{
    if s.len() > 0 && is_ws(s[0]) {
        let k = lemma_trim_start_is_suffix(s.drop_first());
        assert(s.drop_first().skip(k) =~= s.skip(k + 1));
        k + 1
    } else {
        assert(s.skip(0) =~= s);
        0
    }
}

proof fn lemma_trim_end_is_prefix(s: Seq<char>) -> (j: int)
    ensures
        0 <= j <= s.len(),
        trim_end(s) == s.take(j),
    decreases s.len(),
{
    if s.len() > 0 && is_ws(s.last()) {
        let j = lemma_trim_end_is_prefix(s.drop_last());
        assert(s.drop_last().take(j) =~= s.take(j));
        j
    } else {
        assert(s.take(s.len() as int) =~= s);
        s.len() as int
    }
}

proof fn lemma_not_in_part(s: Seq<char>, p: Seq<char>, a: int, b: int)
    requires
        0 <= a <= b <= s.len(),
        !contains_seq(s, p),
    ensures
        !contains_seq(s.subrange(a, b), p),
{
    let t = s.subrange(a, b);
    if contains_seq(t, p) {
        let x = choose|x: int| occurs_at(t, p, x);
        assert(s.subrange(a + x, a + x + p.len()) =~= t.subrange(x, x + p.len()));
        assert(occurs_at(s, p, a + x));
    }
}

proof fn lemma_first_answer_mark(p: Seq<char>, a: Seq<char>)
    requires
        !contains_seq(p, "AM:"@),
    ensures
        first_occurrence(p + "AM:"@ + a, "AM:"@) == Some(p.len() as int),
        (p + "AM:"@ + a).skip(p.len() as int + 3) == a,
{
    reveal_strlit("AM:");
    let m = "AM:"@;
    let s = p + m + a;
    let n = p.len() as int;
    assert(s.subrange(n, n + 3) =~= m);
    assert(occurs_at(s, m, n));
    assert forall|j: int| 0 <= j < n implies !occurs_at(s, m, j) by {
        if occurs_at(s, m, j) {
            if j + 3 <= n {
                assert(p.subrange(j, j + 3) =~= s.subrange(j, j + 3));
                assert(occurs_at(p, m, j));
            } else if j == n - 1 {
                assert(s.subrange(j, j + 3)[1] == s[n]);
            } else {
                assert(s.subrange(j, j + 3)[2] == s[n]);
            }
        }
    }
    assert(contains_seq(s, m));
    let i = choose|i: int| occurs_at(s, m, i) && forall|j: int| 0 <= j < i ==> !occurs_at(s, m, j);
    if i != n {
        if i > n {
            assert(!occurs_at(s, m, n));
        }
    }
    assert(s.skip(n + 3) =~= a);
}

proof fn lemma_newlines_as_spaces_trim(s: Seq<char>)
    ensures
        map_char(trim_start(s), '\n', ' ') == trim_start(map_char(s, '\n', ' ')),
        map_char(trim_end(s), '\n', ' ') == trim_end(map_char(s, '\n', ' ')),
    decreases s.len(),
{
    let m = map_char(s, '\n', ' ');
    if s.len() > 0 {
        lemma_newlines_as_spaces_trim(s.drop_first());
        lemma_newlines_as_spaces_trim(s.drop_last());
        assert(map_char(s.drop_first(), '\n', ' ') =~= m.drop_first());
        assert(map_char(s.drop_last(), '\n', ' ') =~= m.drop_last());
        assert(is_ws(s[0]) == is_ws(m[0]));
        assert(is_ws(s.last()) == is_ws(m.last()));
    } else {
        assert(m.len() == 0);
    }
}

/// When a reply has `AM:` and the text after its first `AM:` has no
/// `Human:` and keeps at least three bytes on one trimmed line, the cleaned
/// reply is exactly that text on one line, whatever precedes the mark
/// (`Human:` turns included).
pub proof fn law_cleanup_keeps_the_answer(p: Seq<char>, a: Seq<char>)
    requires
        !contains_seq(p, "AM:"@),
        !contains_seq(a, "Human:"@),
        utf8_len(trim_seq(map_char(a, '\n', ' '))) >= 3,
    ensures
        cleaned_reply(p + "AM:"@ + a) == trim_seq(map_char(a, '\n', ' ')),
{
    lemma_first_answer_mark(p, a);
    let t = trim_seq(a);
    let k = lemma_trim_start_is_suffix(a);
    let j = lemma_trim_end_is_prefix(trim_start(a));
    assert(t =~= a.subrange(k, k + j));
    lemma_not_in_part(a, "Human:"@, k, k + j);
    assert(after_answer_mark(p + "AM:"@ + a) == t);
    assert(before_human_mark(t) == t);
    lemma_newlines_as_spaces_trim(a);
    lemma_newlines_as_spaces_trim(trim_start(a));
    lemma_trim_twice(map_char(a, '\n', ' '));
}

/// Cleans up a reply of the service.
pub fn cleanup_response(response: &str) -> (res: String)
    ensures
        res@ == cleaned_reply(response@),
{
    let chars = chars_of(response);
    let after = strip_answer_mark(&chars);
    let cut = strip_human_mark(&after);
    let one_line = replace_char(&cut, '\n', ' ');
    let t = trim_chars(&one_line);
    if utf8_len_of(&t) < 3 {
        owned("Your weak words echo in the void.")
    } else {
        string_from_chars(&t)
    }
}

/// The cleaned-up text of a reply of the service.
pub fn final_reply(resp: &ChatCompletionResponse) -> (res: String)
    ensures
        res@ == cleaned_reply(reply_of(*resp)),
{
    let raw = reply_text(resp);
    cleanup_response(raw.as_str())
}

// ------------------------------------------------------------------
// Memories
// ------------------------------------------------------------------

/// The words that mark a question as something to remember, in the order
/// they are looked for.
pub open spec fn memory_keywords() -> Seq<Seq<char>> {
    seq![
        "remember"@,
        "remember that"@,
        "don't forget"@,
        "important"@,
        "crucial"@,
        "key"@,
        "vital"@,
    ]
}

/// The first of `keywords` that occurs in `text`.
pub open spec fn first_keyword_in(text: Seq<char>, keywords: Seq<Seq<char>>) -> Option<Seq<char>>
    decreases keywords.len(),
{
    if keywords.len() == 0 {
        None
    } else if contains_seq(text, keywords[0]) {
        Some(keywords[0])
    } else {
        first_keyword_in(text, keywords.drop_first())
    }
}

/// The memory kept from a lowercased question: the question without every
/// occurrence of the first keyword it holds, trimmed, when that is longer
/// than five bytes; nothing when it holds no keyword or too little remains.
pub open spec fn memory_from(lower: Seq<char>) -> Option<Seq<char>> {
    match first_keyword_in(lower, memory_keywords()) {
        Some(k) => {
            let m = trim_seq(replace_seq(lower, k, Seq::empty()));
            if utf8_len(m) > 5 {
                Some(m)
            } else {
                None
            }
        },
        None => None,
    }
}

fn keyword_list() -> (res: Vec<Vec<char>>)
    ensures
        seqs_of(res@) == memory_keywords(),
        forall|i: int| 0 <= i < res.len() ==> #[trigger] res@[i]@.len() > 0,
{
    let mut v: Vec<Vec<char>> = Vec::new();
    v.push(chars_of("remember"));
    v.push(chars_of("remember that"));
    v.push(chars_of("don't forget"));
    v.push(chars_of("important"));
    v.push(chars_of("crucial"));
    v.push(chars_of("key"));
    v.push(chars_of("vital"));
    proof {
        reveal_strlit("remember");
        reveal_strlit("remember that");
        reveal_strlit("don't forget");
        reveal_strlit("important");
        reveal_strlit("crucial");
        reveal_strlit("key");
        reveal_strlit("vital");
        assert(seqs_of(v@) =~= memory_keywords());
    }
    v
}

/// The memory kept from a question that is already lowercased.
pub fn memory_from_lowered(lower: &str) -> (res: Option<String>)
    ensures
        match res {
            Some(m) => memory_from(lower@) == Some(m@),
            None => memory_from(lower@) is None,
        },
{
    let text = chars_of(lower);
    let keywords = keyword_list();
    let mut i: usize = 0;
    assert(seqs_of(keywords@).skip(0) =~= seqs_of(keywords@));
    while i < keywords.len()
        invariant
            i <= keywords.len(),
            text@ == lower@,
            seqs_of(keywords@) == memory_keywords(),
            forall|j: int| 0 <= j < keywords.len() ==> #[trigger] keywords@[j]@.len() > 0,
            first_keyword_in(text@, memory_keywords())
                == first_keyword_in(text@, seqs_of(keywords@).skip(i as int)),
        decreases keywords.len() - i,
    {
        let ghost rest = seqs_of(keywords@).skip(i as int);
        assert(rest.len() > 0 && rest[0] == keywords@[i as int]@);
        if contains(&text, &keywords[i]) {
            assert(first_keyword_in(text@, rest) == Some(keywords@[i as int]@));
            let nothing: Vec<char> = Vec::new();
            assert(nothing@ =~= Seq::<char>::empty());
            let removed = replace_all(&text, &keywords[i], &nothing);
            let m = trim_chars(&removed);
            if utf8_len_of(&m) > 5 {
                return Some(string_from_chars(&m));
            } else {
                return None;
            }
        }
        assert(rest.drop_first() =~= seqs_of(keywords@).skip(i + 1));
        i += 1;
    }
    None
}

/// The memory kept from a question: the question is lowercased first.
pub fn memory_to_store(user_input: &str) -> (res: Option<String>)
    ensures
        match res {
            Some(m) => memory_from(lowercase_of(user_input@)) == Some(m@),
            None => memory_from(lowercase_of(user_input@)) is None,
        },
{
    let lower = to_lowercase(user_input);
    memory_from_lowered(lower.as_str())
}

// ------------------------------------------------------------------
// The request
// ------------------------------------------------------------------

/// The name a context message is shown under: `AM` for the assistant's own
/// messages, the author's name otherwise.
pub open spec fn speaker_of(m: ContextMessageView) -> Seq<char> {
    if m.msg_type == "assistant"@ {
        "AM"@
    } else {
        m.author
    }
}

/// One line of context: speaker, text and the relevance note given for it.
pub open spec fn context_line(m: ContextMessageView, relevance: Seq<char>) -> Seq<char> {
    speaker_of(m) + ": "@ + m.content + relevance + "\n"@
}

/// The lines of the messages `ms`, the `i`-th with the note `notes[i]`.
pub open spec fn context_lines(ms: Seq<ContextMessageView>, notes: Seq<Seq<char>>) -> Seq<char>
    decreases ms.len(),
{
    if ms.len() == 0 {
        Seq::empty()
    } else {
        context_lines(ms.drop_last(), notes) + context_line(ms.last(), notes[ms.len() - 1])
    }
}

/// At most this many context messages are shown to the service.
pub const MAX_CONTEXT_LINES: usize = 10;

/// The context shown to the service: the lines of the first ten messages.
pub open spec fn context_text_of(ms: Seq<ContextMessageView>, notes: Seq<Seq<char>>) -> Seq<char> {
    let n = if ms.len() < MAX_CONTEXT_LINES {
        ms.len() as int
    } else {
        MAX_CONTEXT_LINES as int
    };
    context_lines(ms.take(n), notes)
}

/// The context text for the messages `context`, where `relevance[i]` is the
/// relevance note shown after the `i`-th message (empty for none).
pub fn context_text(context: &Vec<ContextMessage>, relevance: &Vec<String>) -> (res: String)
    requires
        relevance.len() == context.len(),
    ensures
        res@ == context_text_of(views(context@), string_views(relevance@)),
{
    let n: usize = if context.len() < MAX_CONTEXT_LINES {
        context.len()
    } else {
        MAX_CONTEXT_LINES
    };
    let assistant = chars_of("assistant");
    let mut out = String::new();
    let mut i: usize = 0;
    assert(views(context@).take(0) =~= Seq::<ContextMessageView>::empty());
    while i < n
        invariant
            i <= n,
            n <= context.len(),
            relevance.len() == context.len(),
            assistant@ == "assistant"@,
            out@ == context_lines(views(context@).take(i as int), string_views(relevance@)),
        decreases n - i,
    {
        let m = &context[i];
        let ghost before = views(context@).take(i as int);
        let ghost line = context_line(m@, relevance@[i as int]@);
        let kind = chars_of(m.msg_type.as_str());
        if chars_eq(&kind, &assistant) {
            out.append("AM");
        } else {
            out.append(m.author.as_str());
        }
        out.append(": ");
        out.append(m.content.as_str());
        out.append(relevance[i].as_str());
        out.append("\n");
        let ghost after = views(context@).take(i + 1);
        assert(after.drop_last() =~= before);
        assert(after.last() == m@);
        assert(out@ =~= context_lines(before, string_views(relevance@)) + line);
        i += 1;
    }
    out
}

/// The note that closes every question to the service.
pub open spec fn brevity_note() -> Seq<char> {
    "\nKeep your response under 3 sentences."@
}

/// The text sent as the question: the prompt, the context when there is
/// any, and the user's words in the `Human:` / `AM:` form.
pub open spec fn prompt_text_of(prompt: Seq<char>, context: Seq<char>, input: Seq<char>) -> Seq<char> {
    let base = if context.len() == 0 {
        prompt
    } else {
        prompt + "\n\nContext from conversation:\n"@ + context
    };
    base + "\nHuman: "@ + input + "\nAM:"@
}

/// Builds the question text from the prompt, the context text and the user's words.
pub fn build_prompt(prompt: &str, context: &str, user_input: &str) -> (res: String)
    ensures
        res@ == prompt_text_of(prompt@, context@, user_input@),
{
    let mut out = owned(prompt);
    if !context.is_empty() {
        out.append("\n\nContext from conversation:\n");
        out.append(context);
    }
    out.append("\nHuman: ");
    out.append(user_input);
    out.append("\nAM:");
    out
}

/// The addresses of the images that go with a question.
pub open spec fn image_list(urls: Option<Vec<String>>) -> Seq<Seq<char>> {
    match urls {
        Some(v) => string_views(v@),
        None => Seq::empty(),
    }
}

/// Whether a question comes with at least one image.
pub fn has_images(image_urls: &Option<Vec<String>>) -> (res: bool)
    ensures
        res == (image_list(*image_urls).len() > 0),
{
    match image_urls {
        Some(v) => v.len() > 0,
        None => false,
    }
}

/// The most tokens the answer may use: more when images are to be described.
pub fn max_tokens_for(with_images: bool) -> (res: u32)
    ensures
        res == (if with_images {
            300u32
        } else {
            120u32
        }),
{
    if with_images {
        300
    } else {
        120
    }
}

/// `m` is a plain-text message of `role` holding `text`.
pub open spec fn is_text_message(m: OpenRouterMessage, role: Role, text: Seq<char>) -> bool {
    &&& m.role == role
    &&& m.content is Some
    &&& m.content.unwrap()@ == text
    &&& m.parts is None
}

/// `p` is a text part holding `text`.
pub open spec fn is_text_part(p: ContentPart, text: Seq<char>) -> bool {
    &&& p.part_type@ == "text"@
    &&& p.text is Some
    &&& p.text.unwrap()@ == text
    &&& p.image_url is None
}

/// `p` is an image part showing the image at `url`.
pub open spec fn is_image_part(p: ContentPart, url: Seq<char>) -> bool {
    &&& p.part_type@ == "image_url"@
    &&& p.text is None
    &&& p.image_url is Some
    &&& p.image_url.unwrap().url@ == url
}

/// `m` is a user message in parts: `text` first, then the images at `urls` in order.
pub open spec fn is_parts_message(m: OpenRouterMessage, text: Seq<char>, urls: Seq<Seq<char>>) -> bool {
    &&& m.role == Role::User
    &&& m.content is None
    &&& m.parts is Some
    &&& m.parts.unwrap()@.len() == urls.len() + 1
    &&& is_text_part(m.parts.unwrap()@[0], text)
    &&& forall|j: int| 0 <= j < urls.len() ==> is_image_part(#[trigger] m.parts.unwrap()@[j + 1], urls[j])
}

fn image_parts(text: &str, urls: &Vec<String>) -> (res: Vec<ContentPart>)
    ensures
        res@.len() == urls@.len() + 1,
        is_text_part(res@[0], text@),
        forall|j: int| 0 <= j < urls@.len() ==> is_image_part(#[trigger] res@[j + 1], urls@[j]@),
{
    let mut parts: Vec<ContentPart> = Vec::new();
    parts.push(ContentPart { part_type: owned("text"), text: Some(owned(text)), image_url: None });
    let mut i: usize = 0;
    while i < urls.len()
        invariant
            i <= urls.len(),
            parts@.len() == i + 1,
            is_text_part(parts@[0], text@),
            forall|j: int| 0 <= j < i ==> is_image_part(#[trigger] parts@[j + 1], urls@[j]@),
        decreases urls.len() - i,
    {
        let url = urls[i].clone();
        parts.push(ContentPart { part_type: owned("image_url"), text: None, image_url: Some(ImageUrl { url }) });
        i += 1;
    }
    parts
}

/// The messages of a request: the prompt as the system message, then the
/// question with the closing note, as plain text or, when there are images,
/// in parts followed by the images.
pub fn build_messages(system_prompt: &str, prompt_text: &str, image_urls: &Option<Vec<String>>) -> (res: Vec<OpenRouterMessage>)
    ensures
        res@.len() == 2,
        is_text_message(res@[0], Role::System, system_prompt@),
        image_list(*image_urls).len() > 0 ==> is_parts_message(
            res@[1],
            prompt_text@ + brevity_note(),
            image_list(*image_urls),
        ),
        image_list(*image_urls).len() == 0 ==> is_text_message(
            res@[1],
            Role::User,
            prompt_text@ + brevity_note(),
        ),
{
    let mut messages: Vec<OpenRouterMessage> = Vec::new();
    messages.push(OpenRouterMessage { role: Role::System, content: Some(owned(system_prompt)), parts: None });
    let mut question = owned(prompt_text);
    question.append("\nKeep your response under 3 sentences.");
    match image_urls {
        Some(urls) => {
            if urls.len() > 0 {
                let parts = image_parts(question.as_str(), urls);
                messages.push(OpenRouterMessage { role: Role::User, content: None, parts: Some(parts) });
            } else {
                messages.push(OpenRouterMessage { role: Role::User, content: Some(question), parts: None });
            }
        },
        None => {
            messages.push(OpenRouterMessage { role: Role::User, content: Some(question), parts: None });
        },
    }
    messages
}

/// What a request to the service holds besides the model and temperature.
pub struct ChatRequestPlan {
    pub messages: Vec<OpenRouterMessage>,
    pub max_tokens: u32,
}

/// Prepares a request: the context text from the ranked context and its
/// relevance notes, the question built from the prompt, that context and the
/// user's words, the messages, and the token limit.
pub fn prepare_request(
    prompt: &str,
    context: &Vec<ContextMessage>,
    relevance: &Vec<String>,
    user_input: &str,
    image_urls: &Option<Vec<String>>,
) -> (res: ChatRequestPlan)
    requires
        relevance.len() == context.len(),
    ensures
        ({
            let question = prompt_text_of(
                prompt@,
                context_text_of(views(context@), string_views(relevance@)),
                user_input@,
            ) + brevity_note();
            let images = image_list(*image_urls);
            &&& res.messages@.len() == 2
            &&& is_text_message(res.messages@[0], Role::System, prompt@)
            &&& images.len() > 0 ==> is_parts_message(res.messages@[1], question, images)
            &&& images.len() == 0 ==> is_text_message(res.messages@[1], Role::User, question)
            &&& res.max_tokens == (if images.len() > 0 {
                300u32
            } else {
                120u32
            })
        }),
{
    let ctx = context_text(context, relevance);
    let question = build_prompt(prompt, ctx.as_str(), user_input);
    let messages = build_messages(prompt, question.as_str(), image_urls);
    let max_tokens = max_tokens_for(has_images(image_urls));
    ChatRequestPlan { messages, max_tokens }
}

/// The id under which the assistant's answer to a message is stored.
pub fn assistant_message_id(discord_message_id: &str) -> (res: String)
    ensures
        res@ == "assistant_"@ + discord_message_id@,
{
    let mut id = owned("assistant_");
    id.append(discord_message_id);
    id
}

} // verus!
