//! Everything the bridge decides about Codex: the prompt it sends, how much
//! history fits, the command line, and how Codex's JSON-lines output becomes
//! an answer and a token count.

use vstd::prelude::*;

use crate::json::{get_arr, get_str, get_u64, jget, jstr, views, Json, JsonV};
use crate::text;

verus! {

/// Token counts that Codex reports for one turn.
#[derive(Clone, Copy, Debug)]
pub struct TokenUsage {
    pub input_tokens: u64,
    pub cached_input_tokens: u64,
    pub output_tokens: u64,
    pub reasoning_output_tokens: u64,
}

pub open spec fn zero_usage() -> TokenUsage {
    TokenUsage { input_tokens: 0, cached_input_tokens: 0, output_tokens: 0, reasoning_output_tokens: 0 }
}

impl Default for TokenUsage {
    fn default() -> (r: Self)
        ensures
            r == zero_usage(),
    {
        TokenUsage { input_tokens: 0, cached_input_tokens: 0, output_tokens: 0, reasoning_output_tokens: 0 }
    }
}

/// What one Codex run produced: the answer, its token counts, and how long it took.
#[derive(Clone, Debug)]
pub struct CodexResult {
    pub text: String,
    pub usage: TokenUsage,
    pub duration_ms: u64,
}

/// One chat message, already reduced to plain text.
#[derive(Debug)]
pub struct ChatMessage {
    pub role: String,
    pub content: String,
}

/// The model of a [`ChatMessage`].
pub struct ChatMessageV {
    pub role: Seq<char>,
    pub content: Seq<char>,
}

impl View for ChatMessage {
    type V = ChatMessageV;

    open spec fn view(&self) -> ChatMessageV {
        ChatMessageV { role: self.role@, content: self.content@ }
    }
}

impl Clone for ChatMessage {
    fn clone(&self) -> (r: Self)
        ensures
            r == *self,
    {
        ChatMessage { role: self.role.clone(), content: self.content.clone() }
    }
}

/// The models of a list of messages.
pub open spec fn messages_view(ms: Seq<ChatMessage>) -> Seq<ChatMessageV> {
    Seq::new(ms.len(), |i: int| ms[i]@)
}

pub open spec fn is_system(m: ChatMessageV) -> bool {
    m.role == "system"@
}

/// What `format_prompt` collects while it walks the conversation.
pub struct PromptParts {
    pub notes: Seq<Seq<char>>,
    pub history: Seq<Seq<char>>,
    pub latest_user: Seq<char>,
}

/// System messages become notes; each user message replaces the pending
/// latest user message, pushing the previous one into the history as
/// `User:`; every other message joins the history under its role.
pub open spec fn prompt_parts(ms: Seq<ChatMessageV>) -> PromptParts
    decreases ms.len(),
{
    if ms.len() == 0 {
        PromptParts { notes: Seq::empty(), history: Seq::empty(), latest_user: Seq::empty() }
    } else {
        let p = prompt_parts(ms.drop_last());
        let m = ms.last();
        if m.role == "system"@ {
            PromptParts { notes: p.notes.push(m.content), ..p }
        } else if m.role == "user"@ {
            PromptParts {
                history: if p.latest_user.len() > 0 {
                    p.history.push("User:\n"@ + p.latest_user)
                } else {
                    p.history
                },
                latest_user: m.content,
                ..p
            }
        } else {
            PromptParts { history: p.history.push(m.role + ":\n"@ + m.content), ..p }
        }
    }
}

/// The fixed instructions every prompt starts with.
pub open spec fn prompt_preamble() -> Seq<char> {
    "You are answering through a Cursor chat bridge powered by Codex. Reply directly to the latest user message in the same language they used. Do not run shell commands or edit files unless the latest user message clearly asks for code changes.\n\n"@
}

/// The prompt for a conversation.
pub open spec fn prompt_text(ms: Seq<ChatMessageV>) -> Seq<char> {
    let p = prompt_parts(ms);
    prompt_preamble() + (if p.notes.len() > 0 {
        "System notes:\n"@ + text::join(p.notes, "\n"@) + "\n\n"@
    } else {
        Seq::empty()
    }) + (if p.history.len() > 0 {
        "Earlier conversation:\n"@ + text::join(p.history, "\n\n"@) + "\n\n"@
    } else {
        Seq::empty()
    }) + "Latest user message:\n"@ + p.latest_user
}

/// The content of the last user message of `ms`, empty when there is none.
pub open spec fn last_user_content(ms: Seq<ChatMessageV>) -> Seq<char>
    decreases ms.len(),
{
    if ms.len() == 0 {
        Seq::empty()
    } else if ms.last().role == "user"@ {
        ms.last().content
    } else {
        last_user_content(ms.drop_last())
    }
}

proof fn lemma_last_user_at(ms: Seq<ChatMessageV>, i: int)
    requires
        0 <= i < ms.len(),
        ms[i].role == "user"@,
        forall|k: int| i < k < ms.len() ==> (#[trigger] ms[k]).role != "user"@,
    ensures
        last_user_content(ms) == ms[i].content,
    decreases ms.len(),
{
    if i < ms.len() - 1 {
        assert(ms[ms.len() - 1].role != "user"@);
        let pre = ms.drop_last();
        assert forall|k: int| i < k < pre.len() implies (#[trigger] pre[k]).role != "user"@ by {
            assert(pre[k] == ms[k]);
        }
        lemma_last_user_at(pre, i);
    }
}

proof fn lemma_prompt_parts_shape(ms: Seq<ChatMessageV>)
    ensures
        prompt_parts(ms).latest_user == last_user_content(ms),
        prompt_parts(ms).notes == select_system(ms, true).map_values(|m: ChatMessageV| m.content),
        forall|j: int|
            0 <= j < ms.len() && (#[trigger] ms[j]).role != "user"@ && ms[j].role != "system"@
                ==> prompt_parts(ms).history.contains(ms[j].role + ":\n"@ + ms[j].content),
        forall|i: int, j: int|
            0 <= i < j < ms.len() && (#[trigger] ms[i]).role == "user"@ && (#[trigger] ms[j]).role
                == "user"@ && ms[i].content.len() > 0 ==> prompt_parts(ms).history.contains(
                "User:\n"@ + ms[i].content,
            ),
    decreases ms.len(),
{
    reveal_strlit("system");
    reveal_strlit("user");
    if ms.len() > 0 {
        let pre = ms.drop_last();
        let m = ms.last();
        lemma_prompt_parts_shape(pre);
        let p = prompt_parts(pre);
        let h = prompt_parts(ms).history;
        assert(forall|x: Seq<char>| p.history.contains(x) ==> h.contains(x)) by {
            assert forall|x: Seq<char>| p.history.contains(x) implies h.contains(x) by {
                let k = choose|k: int| 0 <= k < p.history.len() && p.history[k] == x;
                assert(h[k] == x);
            }
        }
        let sys = select_system(pre, true);
        if m.role == "system"@ {
            assert(select_system(ms, true) == sys.push(m));
            assert(sys.push(m).map_values(|x: ChatMessageV| x.content) =~= sys.map_values(
                |x: ChatMessageV| x.content,
            ).push(m.content));
        } else {
            assert(select_system(ms, true) == sys);
        }
        assert forall|j: int|
            0 <= j < ms.len() && (#[trigger] ms[j]).role != "user"@ && ms[j].role != "system"@
                implies h.contains(ms[j].role + ":\n"@ + ms[j].content) by {
            if j < ms.len() - 1 {
                assert(ms[j] == pre[j]);
                assert(p.history.contains(pre[j].role + ":\n"@ + pre[j].content));
            } else {
                assert(ms[j] == m);
                assert(h[h.len() - 1] == m.role + ":\n"@ + m.content);
            }
        }
        assert forall|i: int, j: int|
            0 <= i < j < ms.len() && (#[trigger] ms[i]).role == "user"@ && (#[trigger] ms[j]).role
                == "user"@ && ms[i].content.len() > 0 implies h.contains(
            "User:\n"@ + ms[i].content,
        ) by {
            assert(ms[i] == pre[i]);
            if j < ms.len() - 1 {
                assert(ms[j] == pre[j]);
                assert(p.history.contains("User:\n"@ + pre[i].content));
            } else if exists|k: int| i < k < pre.len() && (#[trigger] pre[k]).role == "user"@ {
                let k = choose|k: int| i < k < pre.len() && (#[trigger] pre[k]).role == "user"@;
                assert(pre[i].role == "user"@ && pre[k].role == "user"@);
                assert(p.history.contains("User:\n"@ + pre[i].content));
            } else {
                lemma_last_user_at(pre, i);
                assert(m.role == "user"@);
                assert(h == p.history.push("User:\n"@ + p.latest_user));
                assert(h[h.len() - 1] == "User:\n"@ + ms[i].content);
            }
        }
    }
}

/// A conversation's earlier user turns are not lost: each user message with
/// text that a later user message follows appears in the prompt's earlier
/// conversation as `User:` and its text.
pub proof fn law_prompt_keeps_earlier_user_turns(ms: Seq<ChatMessageV>, i: int, j: int)
    requires
        0 <= i < j < ms.len(),
        ms[i].role == "user"@,
        ms[j].role == "user"@,
        ms[i].content.len() > 0,
    ensures
        prompt_parts(ms).history.contains("User:\n"@ + ms[i].content),
        text::text_contains(prompt_text(ms), "User:\n"@ + ms[i].content),
{
    lemma_prompt_parts_shape(ms);
    assert(ms[i].role == "user"@ && ms[j].role == "user"@);
    let p = prompt_parts(ms);
    let x = "User:\n"@ + ms[i].content;
    let k = choose|k: int| 0 <= k < p.history.len() && p.history[k] == x;
    text::lemma_join_contains(p.history, "\n\n"@, k);
    let head = "Earlier conversation:\n"@;
    text::lemma_contains_in_right(head, text::join(p.history, "\n\n"@), x);
    text::lemma_contains_in_left(head + text::join(p.history, "\n\n"@), "\n\n"@, x);
    let notes = if p.notes.len() > 0 {
        "System notes:\n"@ + text::join(p.notes, "\n"@) + "\n\n"@
    } else {
        Seq::empty()
    };
    let hist = head + text::join(p.history, "\n\n"@) + "\n\n"@;
    text::lemma_contains_in_right(prompt_preamble() + notes, hist, x);
    text::lemma_contains_in_left(prompt_preamble() + notes + hist, "Latest user message:\n"@, x);
    text::lemma_contains_in_left(
        prompt_preamble() + notes + hist + "Latest user message:\n"@,
        p.latest_user,
        x,
    );
}

/// Every system message becomes a system note, in order, and nothing else
/// does; every message of another role than system or user appears in the
/// earlier conversation under its role.
pub proof fn law_prompt_notes_and_other_roles(ms: Seq<ChatMessageV>, j: int)
    ensures
        prompt_parts(ms).notes == select_system(ms, true).map_values(|m: ChatMessageV| m.content),
        0 <= j < ms.len() && ms[j].role != "user"@ && ms[j].role != "system"@ ==> prompt_parts(
            ms,
        ).history.contains(ms[j].role + ":\n"@ + ms[j].content),
{
    lemma_prompt_parts_shape(ms);
    if 0 <= j < ms.len() {
        assert(ms[j] == ms[j]);
    }
}

/// The prompt ends with the latest user message: the content of the last
/// user message of the conversation.
pub proof fn law_prompt_ends_with_latest_user(ms: Seq<ChatMessageV>)
    ensures
        ("Latest user message:\n"@ + last_user_content(ms)).is_suffix_of(prompt_text(ms)),
{
    lemma_prompt_parts_shape(ms);
    let t = prompt_text(ms);
    let suffix = "Latest user message:\n"@ + last_user_content(ms);
    assert(t.subrange(t.len() - suffix.len(), t.len() as int) =~= suffix);
}

/// When every user message has text, each message but the system ones and
/// the latest user message becomes exactly one entry of the earlier
/// conversation.
pub proof fn law_prompt_history_counts_turns(ms: Seq<ChatMessageV>)
    requires
        forall|i: int| 0 <= i < ms.len() && (#[trigger] ms[i]).role == "user"@ ==> ms[i].content.len()
            > 0,
    ensures
        prompt_parts(ms).history.len() + (if last_user_content(ms).len() > 0 {
            1int
        } else {
            0int
        }) == select_system(ms, false).len(),
    decreases ms.len(),
{
    if ms.len() > 0 {
        let pre = ms.drop_last();
        assert forall|i: int| 0 <= i < pre.len() && (#[trigger] pre[i]).role == "user"@ implies pre[i].content.len() > 0 by {
            assert(pre[i] == ms[i]);
        }
        law_prompt_history_counts_turns(pre);
        lemma_prompt_parts_shape(pre);
        assert(ms[ms.len() - 1] == ms.last());
        reveal_strlit("system");
        reveal_strlit("user");
    }
}

/// Turns a conversation into one Codex prompt.
pub fn format_prompt(messages: &[ChatMessage]) -> (r: String)
    ensures
        r@ == prompt_text(messages_view(messages@)),
{
    let ghost mv = messages_view(messages@);
    let mut notes: Vec<String> = Vec::new();
    let mut history: Vec<String> = Vec::new();
    let mut latest_user = String::new();
    let mut i: usize = 0;
    assert(mv.take(0) =~= Seq::<ChatMessageV>::empty());
    assert(text::views_of_strings(notes@) =~= Seq::<Seq<char>>::empty());
    assert(text::views_of_strings(history@) =~= Seq::<Seq<char>>::empty());
    while i < messages.len()
        invariant
            i <= messages.len(),
            mv == messages_view(messages@),
            prompt_parts(mv.take(i as int)) == (PromptParts {
                notes: text::views_of_strings(notes@),
                history: text::views_of_strings(history@),
                latest_user: latest_user@,
            }),
        decreases messages.len() - i,
    {
        let m = &messages[i];
        assert(mv.take(i + 1).drop_last() =~= mv.take(i as int));
        assert(mv.take(i + 1).last() == m@);
        if text::str_eq(m.role.as_str(), "system") {
            notes.push(m.content.clone());
            assert(text::views_of_strings(notes@) =~= prompt_parts(mv.take(i + 1)).notes);
        } else if text::str_eq(m.role.as_str(), "user") {
            if !latest_user.as_str().is_empty() {
                let mut entry = text::owned("User:\n");
                text::push_str(&mut entry, latest_user.as_str());
                history.push(entry);
            }
            assert(text::views_of_strings(history@) =~= prompt_parts(mv.take(i + 1)).history);
            latest_user = m.content.clone();
        } else {
            let mut entry = m.role.clone();
            text::push_str(&mut entry, ":\n");
            text::push_str(&mut entry, m.content.as_str());
            history.push(entry);
            assert(text::views_of_strings(history@) =~= prompt_parts(mv.take(i + 1)).history);
        }
        i = i + 1;
    }
    assert(mv.take(messages.len() as int) =~= mv);
    let mut prompt = text::owned(
        "You are answering through a Cursor chat bridge powered by Codex. Reply directly to the latest user message in the same language they used. Do not run shell commands or edit files unless the latest user message clearly asks for code changes.\n\n",
    );
    let ghost after_preamble = prompt@;
    if notes.len() > 0 {
        text::push_str(&mut prompt, "System notes:\n");
        let joined = text::join_strings(&notes, "\n");
        text::push_str(&mut prompt, joined.as_str());
        text::push_str(&mut prompt, "\n\n");
    }
    let ghost after_notes = prompt@;
    if history.len() > 0 {
        text::push_str(&mut prompt, "Earlier conversation:\n");
        let joined = text::join_strings(&history, "\n\n");
        text::push_str(&mut prompt, joined.as_str());
        text::push_str(&mut prompt, "\n\n");
    }
    text::push_str(&mut prompt, "Latest user message:\n");
    text::push_str(&mut prompt, latest_user.as_str());
    assert(prompt@ =~= prompt_text(mv));
    prompt
}


/// The longest prompt, in bytes, that the bridge hands to Codex.
pub const MAX_CODEX_PROMPT_CHARS: usize = 32_000;

/// The longest message content, in bytes, kept whole.
pub const MAX_MESSAGE_CHARS: usize = 4_000;

/// Whether cutting `content` to its first `MAX_MESSAGE_CHARS` bytes lands
/// between two characters (or needs no cut).
pub open spec fn truncatable(content: Seq<char>) -> bool {
    text::byte_len(content) <= MAX_MESSAGE_CHARS || vstd::utf8::is_char_boundary(
        vstd::utf8::encode_utf8(content),
        MAX_MESSAGE_CHARS as int,
    )
}

/// `content` cut to its first `MAX_MESSAGE_CHARS` bytes, with a note of how
/// many bytes were dropped.
pub open spec fn truncated_content(content: Seq<char>) -> Seq<char> {
    if text::byte_len(content) <= MAX_MESSAGE_CHARS {
        content
    } else {
        vstd::utf8::decode_utf8(vstd::utf8::encode_utf8(content).take(MAX_MESSAGE_CHARS as int))
            + "... [truncated "@ + text::decimal((text::byte_len(content) - MAX_MESSAGE_CHARS) as nat)
            + " chars]"@
    }
}

/// Whether `truncate_message_content` can cut `content` without splitting a character.
pub fn content_truncatable(content: &str) -> (r: bool)
    ensures
        r == truncatable(content@),
{
    content.len() <= MAX_MESSAGE_CHARS || content.is_char_boundary(MAX_MESSAGE_CHARS)
}

/// Caps one message's content at `MAX_MESSAGE_CHARS` bytes.
pub fn truncate_message_content(content: &str) -> (r: String)
    requires
        truncatable(content@),
    ensures
        r@ == truncated_content(content@),
{
    if content.len() <= MAX_MESSAGE_CHARS {
        return text::owned(content);
    }
    let (head, _rest) = content.split_at(MAX_MESSAGE_CHARS);
    proof {
        vstd::utf8::encode_utf8_decode_utf8(head@);
        assert(vstd::utf8::encode_utf8(content@).take(MAX_MESSAGE_CHARS as int)
            =~= vstd::utf8::encode_utf8(content@).subrange(0, MAX_MESSAGE_CHARS as int));
    }
    let mut r = text::owned(head);
    text::push_str(&mut r, "... [truncated ");
    text::push_decimal(&mut r, (content.len() - MAX_MESSAGE_CHARS) as u64);
    text::push_str(&mut r, " chars]");
    r
}

/// The messages of `ms` that are (`want_system`) or are not system messages, in order.
pub open spec fn select_system(ms: Seq<ChatMessageV>, want_system: bool) -> Seq<ChatMessageV>
    decreases ms.len(),
{
    if ms.len() == 0 {
        Seq::empty()
    } else if is_system(ms.last()) == want_system {
        select_system(ms.drop_last(), want_system).push(ms.last())
    } else {
        select_system(ms.drop_last(), want_system)
    }
}

/// The last `n` elements of `s` (all of them when there are fewer).
pub open spec fn last_n<A>(s: Seq<A>, n: nat) -> Seq<A> {
    if s.len() <= n {
        s
    } else {
        s.skip(s.len() - n)
    }
}

/// `n.max(1)`.
pub open spec fn at_least_one(n: nat) -> nat {
    if n == 0 { 1 } else { n }
}

/// How many non-system messages stay: what is left of the limit after the
/// system messages, but never less than one.
pub open spec fn tail_budget(max_messages: nat, system_count: nat) -> nat {
    let limit = at_least_one(max_messages);
    at_least_one(if limit >= system_count { (limit - system_count) as nat } else { 0 })
}

/// Every system message, then the most recent non-system messages that fit the budget.
pub open spec fn kept_messages(ms: Seq<ChatMessageV>, max_messages: nat) -> Seq<ChatMessageV> {
    let system = select_system(ms, true);
    let rest = select_system(ms, false);
    system + last_n(rest, tail_budget(max_messages, system.len()))
}

/// `ms` with every content capped.
pub open spec fn truncate_all(ms: Seq<ChatMessageV>) -> Seq<ChatMessageV> {
    Seq::new(
        ms.len(),
        |i: int| ChatMessageV { role: ms[i].role, content: truncated_content(ms[i].content) },
    )
}

pub open spec fn prompt_fits(ms: Seq<ChatMessageV>) -> bool {
    text::byte_len(prompt_text(ms)) <= MAX_CODEX_PROMPT_CHARS
}

/// The index of the first non-system message.
pub open spec fn first_non_system(ms: Seq<ChatMessageV>) -> Option<int>
    decreases ms.len(),
{
    if ms.len() == 0 {
        None
    } else if !is_system(ms[0]) {
        Some(0)
    } else {
        match first_non_system(ms.drop_first()) {
            Some(i) => Some(i + 1),
            None => None,
        }
    }
}

/// Drops the oldest non-system message while more than one message is left
/// and the prompt is still too long.
pub open spec fn prune(ms: Seq<ChatMessageV>) -> Seq<ChatMessageV>
    decreases ms.len(),
{
    if ms.len() > 1 && !prompt_fits(ms) {
        match first_non_system(ms) {
            Some(i) => if 0 <= i < ms.len() {
                prune(ms.remove(i))
            } else {
                ms
            },
            None => ms,
        }
    } else {
        ms
    }
}

/// A conversation that needs no trimming: within the message limit and the prompt limit.
pub open spec fn fits_untrimmed(ms: Seq<ChatMessageV>, max_messages: nat) -> bool {
    ms.len() <= at_least_one(max_messages) && prompt_fits(ms)
}

/// The history `trim_messages_for_codex` hands on.
pub open spec fn trimmed_history(ms: Seq<ChatMessageV>, max_messages: nat) -> Seq<ChatMessageV> {
    if ms.len() == 0 || fits_untrimmed(ms, max_messages) {
        ms
    } else {
        prune(truncate_all(kept_messages(ms, max_messages)))
    }
}

/// Trimming cuts the content of every kept message; each cut must fall
/// between two characters.
pub open spec fn trim_requirement(ms: Seq<ChatMessageV>, max_messages: nat) -> bool {
    ms.len() == 0 || fits_untrimmed(ms, max_messages) || (forall|i: int|
        0 <= i < kept_messages(ms, max_messages).len() ==> truncatable(
            #[trigger] kept_messages(ms, max_messages)[i].content,
        ))
}

/// A copy of a list of messages.
pub fn copy_messages(ms: &[ChatMessage]) -> (r: Vec<ChatMessage>)
    ensures
        r@ == ms@,
{
    let mut r: Vec<ChatMessage> = Vec::new();
    let mut i: usize = 0;
    while i < ms.len()
        invariant
            i <= ms.len(),
            r@ == ms@.take(i as int),
        decreases ms.len() - i,
    {
        r.push(ms[i].clone());
        i = i + 1;
        assert(r@ =~= ms@.take(i as int));
    }
    assert(ms@.take(ms.len() as int) =~= ms@);
    r
}

fn is_system_message(m: &ChatMessage) -> (r: bool)
    ensures
        r == is_system(m@),
{
    text::str_eq(m.role.as_str(), "system")
}

fn first_non_system_index(ms: &Vec<ChatMessage>) -> (r: Option<usize>)
    ensures
        match r {
            Some(i) => first_non_system(messages_view(ms@)) == Some(i as int) && i < ms.len(),
            None => first_non_system(messages_view(ms@)) is None,
        },
{
    let ghost mv = messages_view(ms@);
    let mut i: usize = 0;
    assert(mv.skip(0) =~= mv);
    while i < ms.len()
        invariant
            i <= ms.len(),
            mv == messages_view(ms@),
            forall|k: int| 0 <= k < i ==> is_system(mv[k]),
            first_non_system(mv) == match first_non_system(mv.skip(i as int)) {
                Some(j) => Some(j + i),
                None => None,
            },
        decreases ms.len() - i,
    {
        assert(mv.skip(i as int)[0] == mv[i as int]);
        if !is_system_message(&ms[i]) {
            return Some(i);
        }
        assert(mv.skip(i as int).drop_first() =~= mv.skip(i + 1));
        i = i + 1;
    }
    assert(mv.skip(i as int).len() == 0);
    None
}

#[verifier::rlimit(40)]
/// Fits a conversation to Codex: at most `max_messages` messages (at least
/// one), all system messages first, then the most recent others; contents
/// capped; then the oldest non-system messages dropped while the prompt is
/// too long. Returns the kept messages and how many came in.
pub fn trim_messages_for_codex(messages: &[ChatMessage], max_messages: usize) -> (r: (
    Vec<ChatMessage>,
    usize,
))
    requires
        trim_requirement(messages_view(messages@), max_messages as nat),
    ensures
        r.1 == messages@.len(),
        messages_view(r.0@) == trimmed_history(messages_view(messages@), max_messages as nat),
{
    let ghost mv = messages_view(messages@);
    let original_len = messages.len();
    if original_len == 0 {
        let empty: Vec<ChatMessage> = Vec::new();
        assert(messages_view(empty@) =~= mv);
        return (empty, 0);
    }
    let limit = if max_messages == 0 { 1 } else { max_messages };
    if original_len <= limit {
        let prompt = format_prompt(messages);
        if prompt.as_str().len() <= MAX_CODEX_PROMPT_CHARS {
            let copy = copy_messages(messages);
            assert(messages_view(copy@) =~= mv);
            return (copy, original_len);
        }
    }
    let mut system: Vec<ChatMessage> = Vec::new();
    let mut non_system: Vec<ChatMessage> = Vec::new();
    let mut i: usize = 0;
    assert(mv.take(0) =~= Seq::<ChatMessageV>::empty());
    assert(messages_view(system@) =~= Seq::<ChatMessageV>::empty());
    assert(messages_view(non_system@) =~= Seq::<ChatMessageV>::empty());
    while i < messages.len()
        invariant
            i <= messages.len(),
            mv == messages_view(messages@),
            messages_view(system@) == select_system(mv.take(i as int), true),
            messages_view(non_system@) == select_system(mv.take(i as int), false),
        decreases messages.len() - i,
    {
        let m = messages[i].clone();
        assert(mv.take(i + 1).drop_last() =~= mv.take(i as int));
        assert(mv.take(i + 1).last() == m@);
        if is_system_message(&m) {
            system.push(m);
        } else {
            non_system.push(m);
        }
        i = i + 1;
        assert(messages_view(system@) =~= select_system(mv.take(i as int), true));
        assert(messages_view(non_system@) =~= select_system(mv.take(i as int), false));
    }
    assert(mv.take(messages.len() as int) =~= mv);
    let limit_left = if limit >= system.len() { limit - system.len() } else { 0 };
    let budget = if limit_left == 0 { 1 } else { limit_left };
    let start = if non_system.len() > budget { non_system.len() - budget } else { 0 };
    let ghost kept = kept_messages(mv, max_messages as nat);
    assert(!fits_untrimmed(mv, max_messages as nat));
    assert(forall|x: int| 0 <= x < kept.len() ==> truncatable(#[trigger] kept[x].content));
    assert(tail_budget(max_messages as nat, system@.len()) == budget);
    let mut trimmed: Vec<ChatMessage> = Vec::new();
    let mut j: usize = 0;
    assert(messages_view(trimmed@) =~= truncate_all(kept.take(0)));
    while j < system.len()
        invariant
            j <= system.len(),
            kept == messages_view(system@) + last_n(messages_view(non_system@), budget as nat),
            forall|k: int| 0 <= k < kept.len() ==> truncatable(#[trigger] kept[k].content),
            messages_view(trimmed@) == truncate_all(kept.take(j as int)),
        decreases system.len() - j,
    {
        assert(kept[j as int] == system@[j as int]@);
        assert(truncatable(kept[j as int].content));
        let ghost before = messages_view(trimmed@);
        let content = truncate_message_content(system[j].content.as_str());
        let item = ChatMessage { role: system[j].role.clone(), content };
        let ghost item_view = item@;
        trimmed.push(item);
        assert(messages_view(trimmed@) =~= before.push(item_view));
        assert(truncate_all(kept.take(j + 1)) =~= truncate_all(kept.take(j as int)).push(item_view));
        j = j + 1;
    }
    let mut k: usize = start;
    while k < non_system.len()
        invariant
            start <= k <= non_system.len(),
            start == if non_system.len() > budget { non_system.len() - budget } else { 0 },
            kept == messages_view(system@) + last_n(messages_view(non_system@), budget as nat),
            forall|x: int| 0 <= x < kept.len() ==> truncatable(#[trigger] kept[x].content),
            messages_view(trimmed@) == truncate_all(kept.take(system.len() + k - start)),
        decreases non_system.len() - k,
    {
        assert(kept[system.len() + k - start] == non_system@[k as int]@);
        assert(truncatable(kept[system.len() + k - start].content));
        let ghost before = messages_view(trimmed@);
        let content = truncate_message_content(non_system[k].content.as_str());
        let item = ChatMessage { role: non_system[k].role.clone(), content };
        let ghost item_view = item@;
        trimmed.push(item);
        assert(messages_view(trimmed@) =~= before.push(item_view));
        assert(truncate_all(kept.take(system.len() + k - start + 1)) =~= truncate_all(
            kept.take(system.len() + k - start),
        ).push(item_view));
        k = k + 1;
    }
    assert(kept.take(kept.len() as int) =~= kept);
    let ghost target = prune(truncate_all(kept));
    loop
        invariant
            prune(messages_view(trimmed@)) == target,
        ensures
            messages_view(trimmed@) == target,
        decreases trimmed.len(),
    {
        if trimmed.len() <= 1 {
            assert(prune(messages_view(trimmed@)) == messages_view(trimmed@));
            break;
        }
        let prompt = format_prompt(trimmed.as_slice());
        if prompt.as_str().len() <= MAX_CODEX_PROMPT_CHARS {
            assert(prompt_fits(messages_view(trimmed@)));
            assert(prune(messages_view(trimmed@)) == messages_view(trimmed@));
            break;
        }
        match first_non_system_index(&trimmed) {
            Some(index) => {
                let ghost before = messages_view(trimmed@);
                trimmed.remove(index);
                assert(messages_view(trimmed@) =~= before.remove(index as int));
            },
            None => {
                assert(prune(messages_view(trimmed@)) == messages_view(trimmed@));
                break;
            },
        }
    }
    (trimmed, original_len)
}

/// A capped content can be capped again: a cut content is its first
/// `MAX_MESSAGE_CHARS` bytes followed by an ASCII note, so the cut point is a
/// character boundary.
pub proof fn lemma_truncated_truncatable(content: Seq<char>)
    requires
        truncatable(content),
    ensures
        truncatable(truncated_content(content)),
{
    if text::byte_len(content) > MAX_MESSAGE_CHARS {
        let b = vstd::utf8::encode_utf8(content);
        let head_bytes = b.take(MAX_MESSAGE_CHARS as int);
        let head = vstd::utf8::decode_utf8(head_bytes);
        let note = "... [truncated "@ + text::decimal((text::byte_len(content) - MAX_MESSAGE_CHARS) as nat)
            + " chars]"@;
        let t = truncated_content(content);
        assert(t == head + note);
        vstd::utf8::encode_utf8_valid_utf8(content);
        assert(head_bytes =~= b.subrange(0, MAX_MESSAGE_CHARS as int));
        vstd::utf8::valid_utf8_split(b, MAX_MESSAGE_CHARS as int);
        vstd::utf8::decode_utf8_encode_utf8(head_bytes);
        text::lemma_encode_concat(head, note);
        reveal_strlit("... [truncated ");
        let n1 = "... [truncated "@;
        let n2 = text::decimal((text::byte_len(content) - MAX_MESSAGE_CHARS) as nat) + " chars]"@;
        assert(note =~= n1 + n2);
        text::lemma_encode_concat(n1, n2);
        assert(n1[0] == '.');
        assert(n1.drop_first().len() >= 0);
        assert(vstd::utf8::encode_utf8(n1) =~= vstd::utf8::encode_scalar('.' as u32)
            + vstd::utf8::encode_utf8(n1.drop_first()));
        assert(('.' as u32) == 46);
        assert((46u32 & 0x7F) == 46u32) by (bit_vector);
        assert(vstd::utf8::encode_scalar('.' as u32) =~= seq![46u8]);
        assert(vstd::utf8::encode_utf8(n1)[0] == 46u8);
        assert(vstd::utf8::encode_utf8(note)[0] == 46u8);
        let et = vstd::utf8::encode_utf8(t);
        assert(head_bytes.len() == MAX_MESSAGE_CHARS);
        assert(et[MAX_MESSAGE_CHARS as int] == 0x2Eu8);
        vstd::utf8::encode_utf8_valid_utf8(t);
        vstd::utf8::is_char_boundary_iff_not_is_continuation_byte(et, MAX_MESSAGE_CHARS as int);
    }
}

/// A content within `MAX_MESSAGE_CHARS` bytes is kept whole; a longer one
/// keeps exactly its first `MAX_MESSAGE_CHARS` bytes, followed by a note of
/// how many bytes were dropped.
pub proof fn law_truncation_keeps_the_first_bytes(content: Seq<char>)
    requires
        truncatable(content),
    ensures
        text::byte_len(content) <= MAX_MESSAGE_CHARS ==> truncated_content(content) == content,
        text::byte_len(content) > MAX_MESSAGE_CHARS ==> {
            let t = truncated_content(content);
            let note = "... [truncated "@ + text::decimal(
                (text::byte_len(content) - MAX_MESSAGE_CHARS) as nat,
            ) + " chars]"@;
            &&& vstd::utf8::encode_utf8(t).take(MAX_MESSAGE_CHARS as int) == vstd::utf8::encode_utf8(
                content,
            ).take(MAX_MESSAGE_CHARS as int)
            &&& note.is_suffix_of(t)
        },
{
    if text::byte_len(content) > MAX_MESSAGE_CHARS {
        let b = vstd::utf8::encode_utf8(content);
        let head_bytes = b.take(MAX_MESSAGE_CHARS as int);
        let head = vstd::utf8::decode_utf8(head_bytes);
        let note = "... [truncated "@ + text::decimal((text::byte_len(content) - MAX_MESSAGE_CHARS) as nat)
            + " chars]"@;
        let t = truncated_content(content);
        assert(t == head + note);
        vstd::utf8::encode_utf8_valid_utf8(content);
        assert(head_bytes =~= b.subrange(0, MAX_MESSAGE_CHARS as int));
        vstd::utf8::valid_utf8_split(b, MAX_MESSAGE_CHARS as int);
        vstd::utf8::decode_utf8_encode_utf8(head_bytes);
        text::lemma_encode_concat(head, note);
        assert(vstd::utf8::encode_utf8(t).take(MAX_MESSAGE_CHARS as int) =~= head_bytes);
        assert(t.subrange(t.len() - note.len(), t.len() as int) =~= note);
    }
}

proof fn lemma_select_truncatable(ms: Seq<ChatMessageV>, want_system: bool)
    requires
        forall|j: int| 0 <= j < ms.len() ==> truncatable(#[trigger] ms[j].content),
    ensures
        forall|i: int|
            0 <= i < select_system(ms, want_system).len() ==> truncatable(
                #[trigger] select_system(ms, want_system)[i].content,
            ),
    decreases ms.len(),
{
    if ms.len() > 0 {
        lemma_select_truncatable(ms.drop_last(), want_system);
        assert(truncatable(ms[ms.len() - 1].content));
        let r = select_system(ms.drop_last(), want_system);
        let s = select_system(ms, want_system);
        assert forall|i: int| 0 <= i < s.len() implies truncatable(#[trigger] s[i].content) by {
            if i < r.len() {
                assert(s[i] == r[i]);
            } else {
                assert(s[i] == ms.last());
            }
        }
    }
}

/// A conversation whose contents can all be cut can always be trimmed.
pub proof fn lemma_trimmable(ms: Seq<ChatMessageV>, max_messages: nat)
    requires
        forall|j: int| 0 <= j < ms.len() ==> truncatable(#[trigger] ms[j].content),
    ensures
        trim_requirement(ms, max_messages),
{
    lemma_select_truncatable(ms, true);
    lemma_select_truncatable(ms, false);
    let system = select_system(ms, true);
    let rest = select_system(ms, false);
    let tail = last_n(rest, tail_budget(max_messages, system.len()));
    let kept = kept_messages(ms, max_messages);
    assert forall|i: int| 0 <= i < kept.len() implies truncatable(#[trigger] kept[i].content) by {
        if i < system.len() {
            assert(kept[i] == system[i]);
        } else {
            if rest.len() <= tail_budget(max_messages, system.len()) {
                assert(kept[i] == rest[i - system.len()]);
            } else {
                assert(kept[i] == rest[rest.len() - tail_budget(max_messages, system.len()) + (i
                    - system.len())]);
            }
        }
    }
}

/// `s` is a suffix of `t`: the last `s.len()` elements of `t`, in order.
pub open spec fn suffix_of<A>(s: Seq<A>, t: Seq<A>) -> bool {
    s.len() <= t.len() && s == t.skip(t.len() - s.len())
}

proof fn lemma_select_concat(a: Seq<ChatMessageV>, b: Seq<ChatMessageV>, want_system: bool)
    ensures
        select_system(a + b, want_system) == select_system(a, want_system) + select_system(
            b,
            want_system,
        ),
    decreases b.len(),
{
    if b.len() == 0 {
        assert(a + b =~= a);
        assert(select_system(a, want_system) + select_system(b, want_system) =~= select_system(
            a,
            want_system,
        ));
    } else {
        lemma_select_concat(a, b.drop_last(), want_system);
        assert((a + b).drop_last() =~= a + b.drop_last());
        assert((a + b).last() == b.last());
        if is_system(b.last()) == want_system {
            assert(select_system(a, want_system) + select_system(b.drop_last(), want_system).push(
                b.last(),
            ) =~= (select_system(a, want_system) + select_system(b.drop_last(), want_system)).push(
                b.last(),
            ));
        }
    }
}

proof fn lemma_select_len(ms: Seq<ChatMessageV>)
    ensures
        select_system(ms, true).len() + select_system(ms, false).len() == ms.len(),
    decreases ms.len(),
{
    if ms.len() > 0 {
        lemma_select_len(ms.drop_last());
    }
}

proof fn lemma_select_members(ms: Seq<ChatMessageV>, want_system: bool)
    ensures
        forall|i: int|
            0 <= i < select_system(ms, want_system).len() ==> is_system(
                #[trigger] select_system(ms, want_system)[i],
            ) == want_system,
    decreases ms.len(),
{
    if ms.len() > 0 {
        lemma_select_members(ms.drop_last(), want_system);
        let r = select_system(ms.drop_last(), want_system);
        let s = select_system(ms, want_system);
        assert forall|i: int| 0 <= i < s.len() implies is_system(#[trigger] s[i]) == want_system by {
            if i < r.len() {
                assert(s[i] == r[i]);
            }
        }
    }
}

proof fn lemma_select_uniform(ms: Seq<ChatMessageV>, want_system: bool)
    requires
        forall|i: int| 0 <= i < ms.len() ==> is_system(#[trigger] ms[i]) == want_system,
    ensures
        select_system(ms, want_system) == ms,
        select_system(ms, !want_system).len() == 0,
    decreases ms.len(),
{
    if ms.len() > 0 {
        lemma_select_uniform(ms.drop_last(), want_system);
        assert(is_system(ms[ms.len() - 1]) == want_system);
        assert(ms.drop_last().push(ms.last()) =~= ms);
    }
}

proof fn lemma_select_truncate_all(ms: Seq<ChatMessageV>, want_system: bool)
    ensures
        select_system(truncate_all(ms), want_system) == truncate_all(
            select_system(ms, want_system),
        ),
    decreases ms.len(),
{
    if ms.len() == 0 {
        assert(truncate_all(select_system(ms, want_system)) =~= Seq::<ChatMessageV>::empty());
    } else {
        lemma_select_truncate_all(ms.drop_last(), want_system);
        assert(truncate_all(ms).drop_last() =~= truncate_all(ms.drop_last()));
        let r = select_system(ms.drop_last(), want_system);
        if is_system(ms.last()) == want_system {
            assert(truncate_all(r.push(ms.last())) =~= truncate_all(r).push(
                truncate_all(ms).last(),
            ));
        }
    }
}

proof fn lemma_truncate_all_skip(s: Seq<ChatMessageV>, k: int)
    requires
        0 <= k <= s.len(),
    ensures
        truncate_all(s.skip(k)) == truncate_all(s).skip(k),
{
    assert(truncate_all(s.skip(k)) =~= truncate_all(s).skip(k));
}

proof fn lemma_first_non_system(ms: Seq<ChatMessageV>)
    ensures
        match first_non_system(ms) {
            Some(i) => 0 <= i < ms.len() && !is_system(ms[i]) && forall|j: int|
                0 <= j < i ==> is_system(#[trigger] ms[j]),
            None => forall|j: int| 0 <= j < ms.len() ==> is_system(#[trigger] ms[j]),
        },
    decreases ms.len(),
{
    if ms.len() > 0 && is_system(ms[0]) {
        lemma_first_non_system(ms.drop_first());
        match first_non_system(ms.drop_first()) {
            Some(i) => {
                assert forall|j: int| 0 <= j < i + 1 implies is_system(#[trigger] ms[j]) by {
                    if j > 0 {
                        assert(ms[j] == ms.drop_first()[j - 1]);
                    }
                }
            },
            None => {
                assert forall|j: int| 0 <= j < ms.len() implies is_system(#[trigger] ms[j]) by {
                    if j > 0 {
                        assert(ms[j] == ms.drop_first()[j - 1]);
                    }
                }
            },
        }
    }
}

proof fn lemma_remove_first_non_system(ms: Seq<ChatMessageV>, i: int)
    requires
        first_non_system(ms) == Some(i),
    ensures
        0 <= i < ms.len(),
        select_system(ms.remove(i), true) == select_system(ms, true),
        select_system(ms, false).len() > 0,
        select_system(ms.remove(i), false) == select_system(ms, false).drop_first(),
{
    lemma_first_non_system(ms);
    let head = ms.take(i);
    let one = seq![ms[i]];
    let tail = ms.skip(i + 1);
    assert(ms =~= head + one + tail);
    assert(ms.remove(i) =~= head + tail);
    assert forall|j: int| 0 <= j < head.len() implies is_system(#[trigger] head[j]) == true by {
        assert(head[j] == ms[j]);
    }
    lemma_select_uniform(head, true);
    assert forall|j: int| 0 <= j < one.len() implies is_system(#[trigger] one[j]) == false by {}
    lemma_select_uniform(one, false);
    lemma_select_concat(head + one, tail, true);
    lemma_select_concat(head + one, tail, false);
    lemma_select_concat(head, one, true);
    lemma_select_concat(head, one, false);
    lemma_select_concat(head, tail, true);
    lemma_select_concat(head, tail, false);
    let st = select_system(tail, false);
    assert(select_system(ms, false) =~= one + st);
    assert((one + st).drop_first() =~= st);
    assert(select_system(head + tail, false) =~= st);
    assert(select_system(head + tail, true) =~= head + select_system(tail, true));
    assert(select_system(ms, true) =~= head + select_system(tail, true));
}

proof fn lemma_prune(ms: Seq<ChatMessageV>)
    ensures
        select_system(prune(ms), true) == select_system(ms, true),
        suffix_of(select_system(prune(ms), false), select_system(ms, false)),
        prune(ms).len() <= ms.len(),
        ms.len() >= 1 ==> prune(ms).len() >= 1,
        prompt_fits(prune(ms)) || prune(ms).len() <= 1 || forall|j: int|
            0 <= j < prune(ms).len() ==> is_system(#[trigger] prune(ms)[j]),
    decreases ms.len(),
{
    let s = select_system(ms, false);
    if ms.len() > 1 && !prompt_fits(ms) {
        lemma_first_non_system(ms);
        match first_non_system(ms) {
            Some(i) => {
                lemma_remove_first_non_system(ms, i);
                let next = ms.remove(i);
                lemma_prune(next);
                let p = select_system(prune(next), false);
                let s1 = select_system(next, false);
                assert(s1 =~= s.drop_first());
                assert(p =~= s.skip(s.len() - p.len()));
            },
            None => {
                assert(s.skip(0) =~= s);
            },
        }
    } else {
        assert(s.skip(0) =~= s);
    }
}

/// What every trimmed conversation looks like, before or after the cut.
proof fn lemma_trimmed_shape(ms: Seq<ChatMessageV>, max_messages: nat)
    ensures
        ({
            let t = trimmed_history(ms, max_messages);
            let untouched = ms.len() == 0 || fits_untrimmed(ms, max_messages);
            let system = select_system(ms, true);
            let rest = select_system(ms, false);
            let limit = at_least_one(max_messages);
            &&& select_system(t, true) == (if untouched {
                system
            } else {
                truncate_all(system)
            })
            &&& suffix_of(
                select_system(t, false),
                if untouched {
                    rest
                } else {
                    truncate_all(rest)
                },
            )
            &&& t.len() <= ms.len()
            &&& (ms.len() >= 1 ==> t.len() >= 1)
            &&& t.len() <= (if system.len() < limit {
                limit
            } else {
                system.len() + 1
            })
            &&& (prompt_fits(t) || t.len() <= 1 || forall|j: int|
                0 <= j < t.len() ==> is_system(#[trigger] t[j]))
        }),
{
    let t = trimmed_history(ms, max_messages);
    let system = select_system(ms, true);
    let rest = select_system(ms, false);
    let limit = at_least_one(max_messages);
    lemma_select_len(ms);
    if ms.len() == 0 || fits_untrimmed(ms, max_messages) {
        assert(rest.skip(0) =~= rest);
    } else {
        let b = tail_budget(max_messages, system.len());
        let tail = last_n(rest, b);
        let kept = kept_messages(ms, max_messages);
        let cut = truncate_all(kept);
        lemma_select_members(ms, true);
        lemma_select_members(ms, false);
        lemma_select_uniform(system, true);
        let k = if rest.len() <= b { 0 } else { rest.len() - b };
        assert(tail =~= rest.skip(k));
        assert forall|i: int| 0 <= i < tail.len() implies is_system(#[trigger] tail[i]) == false by {
            assert(tail[i] == rest[i + k]);
        }
        lemma_select_uniform(tail, false);
        lemma_select_concat(system, tail, true);
        lemma_select_concat(system, tail, false);
        assert(select_system(kept, true) =~= system);
        assert(select_system(kept, false) =~= tail);
        lemma_select_truncate_all(kept, true);
        lemma_select_truncate_all(kept, false);
        lemma_prune(cut);
        lemma_truncate_all_skip(rest, k);
        let p = select_system(t, false);
        let tr = truncate_all(rest);
        assert(p =~= tr.skip(tr.len() - p.len()));
    }
}

/// A conversation within both the message limit and the prompt limit goes
/// to Codex unchanged.
pub proof fn law_trim_leaves_fitting_history_alone(ms: Seq<ChatMessageV>, max_messages: nat)
    requires
        fits_untrimmed(ms, max_messages),
    ensures
        trimmed_history(ms, max_messages) == ms,
{
}

/// Trimming keeps every system message, in order (their contents capped
/// when the history had to be cut).
pub proof fn law_trim_keeps_system_messages(ms: Seq<ChatMessageV>, max_messages: nat)
    ensures
        select_system(trimmed_history(ms, max_messages), true) == (if ms.len() == 0
            || fits_untrimmed(ms, max_messages) {
            select_system(ms, true)
        } else {
            truncate_all(select_system(ms, true))
        }),
{
    lemma_trimmed_shape(ms, max_messages);
}

/// The other messages that survive trimming are the most recent ones, in
/// their original order.
pub proof fn law_trim_keeps_latest_messages(ms: Seq<ChatMessageV>, max_messages: nat)
    ensures
        suffix_of(
            select_system(trimmed_history(ms, max_messages), false),
            if ms.len() == 0 || fits_untrimmed(ms, max_messages) {
                select_system(ms, false)
            } else {
                truncate_all(select_system(ms, false))
            },
        ),
{
    lemma_trimmed_shape(ms, max_messages);
}

/// Trimming never adds messages, keeps at least one of a non-empty
/// conversation, and keeps at most `max_messages` (at least one) unless the
/// system messages alone reach that limit, in which case one other message
/// stays beside them.
pub proof fn law_trim_size(ms: Seq<ChatMessageV>, max_messages: nat)
    ensures
        trimmed_history(ms, max_messages).len() <= ms.len(),
        ms.len() >= 1 ==> trimmed_history(ms, max_messages).len() >= 1,
        trimmed_history(ms, max_messages).len() <= (if select_system(ms, true).len()
            < at_least_one(max_messages) {
            at_least_one(max_messages)
        } else {
            select_system(ms, true).len() + 1
        }),
{
    lemma_trimmed_shape(ms, max_messages);
}

/// After trimming, the prompt fits Codex's limit, unless a single message is
/// left or only system messages are left, which trimming never drops.
pub proof fn law_trim_fits_prompt(ms: Seq<ChatMessageV>, max_messages: nat)
    ensures
        prompt_fits(trimmed_history(ms, max_messages)) || trimmed_history(ms, max_messages).len()
            <= 1 || forall|j: int|
            0 <= j < trimmed_history(ms, max_messages).len() ==> is_system(
                #[trigger] trimmed_history(ms, max_messages)[j],
            ),
{
    lemma_trimmed_shape(ms, max_messages);
}

/// What `build_codex_prompt` reports about the prompt it built.
#[derive(Clone, Copy, Debug)]
pub struct PromptMeta {
    pub original_messages: usize,
    pub sent_messages: usize,
    pub prompt_chars: usize,
}

/// Trims the conversation for Codex and formats the prompt (`build_codex_prompt`).
pub fn build_codex_prompt(messages: &[ChatMessage], max_messages: usize) -> (r: (String, PromptMeta))
    requires
        trim_requirement(messages_view(messages@), max_messages as nat),
    ensures
        r.0@ == prompt_text(trimmed_history(messages_view(messages@), max_messages as nat)),
        r.1.original_messages == messages@.len(),
        r.1.sent_messages == trimmed_history(messages_view(messages@), max_messages as nat).len(),
        r.1.prompt_chars == text::byte_len(r.0@),
{
    let (trimmed, original_messages) = trim_messages_for_codex(messages, max_messages);
    let prompt = format_prompt(trimmed.as_slice());
    let meta = PromptMeta {
        original_messages,
        sent_messages: trimmed.len(),
        prompt_chars: prompt.as_str().len(),
    };
    (prompt, meta)
}

/// At most 400 bytes of `t`, trimmed, for error messages: a text over 400
/// bytes is cut to its first 400 characters, trimmed, and marked with `...`.
pub open spec fn error_excerpt(t: Seq<char>) -> Seq<char> {
    if text::byte_len(t) <= 400 {
        text::trim(t)
    } else {
        text::trim(t.take(if t.len() < 400 { t.len() as int } else { 400 })) + "..."@
    }
}

/// An excerpt of Codex output for an error message (`truncate_for_error`).
pub fn truncate_for_error(t: &str) -> (r: String)
    ensures
        r@ == error_excerpt(t@),
{
    if t.len() <= 400 {
        return text::trimmed(t);
    }
    let chars = text::chars_of(t);
    let n = if chars.len() < 400 { chars.len() } else { 400 };
    let head = &chars.as_slice()[0..n];
    let (a, b) = text::trim_bounds(head);
    let mut r = text::string_from_chars(&head[a..b]);
    text::push_str(&mut r, "...");
    assert(head@ =~= t@.take(n as int));
    r
}

/// The text of a Codex JSON event: for message events their `message`,
/// `text` or `content`; else the same fields of the event's `item`, or the
/// newline-joined texts of the item's content parts.
pub open spec fn event_message_text(event: JsonV) -> Option<Seq<char>> {
    let t = crate::chat::or_default(get_str(event, "type"@), Seq::empty());
    let is_message = t == "agent_message"@ || t == "message"@ || t == "assistant_message"@;
    if is_message && get_str(event, "message"@) is Some {
        get_str(event, "message"@)
    } else if is_message && get_str(event, "text"@) is Some {
        get_str(event, "text"@)
    } else if is_message && get_str(event, "content"@) is Some {
        get_str(event, "content"@)
    } else {
        match jget(event, "item"@) {
            None => None,
            Some(item) => if get_str(item, "message"@) is Some {
                get_str(item, "message"@)
            } else if get_str(item, "text"@) is Some {
                get_str(item, "text"@)
            } else if get_str(item, "content"@) is Some {
                get_str(item, "content"@)
            } else {
                match get_arr(item, "content"@) {
                    Some(parts) => {
                        let joined = text::join(part_strings(parts), "\n"@);
                        if joined.len() == 0 {
                            None
                        } else {
                            Some(joined)
                        }
                    },
                    None => None,
                }
            },
        }
    }
}

/// Codex's answer text is read from where Codex puts it: an event without a
/// `type`, or of another type than a message, takes its text from its
/// `item` (the item's `text` when it has no `message`); a message event takes
/// its own `text` when it has no `message`; an event with neither a message
/// field nor an `item` holds no text.
pub proof fn law_message_text_location(event: JsonV)
    ensures
        get_str(event, "type"@) is None && jget(event, "item"@) is Some && get_str(
            jget(event, "item"@)->0,
            "message"@,
        ) is None && get_str(jget(event, "item"@)->0, "text"@) is Some ==> event_message_text(event)
            == get_str(jget(event, "item"@)->0, "text"@),
        get_str(event, "type"@) == Some("agent_message"@) && get_str(event, "message"@) is None
            && get_str(event, "text"@) is Some ==> event_message_text(event) == get_str(
            event,
            "text"@,
        ),
        jget(event, "item"@) is None && get_str(event, "message"@) is None && get_str(
            event,
            "text"@,
        ) is None && get_str(event, "content"@) is None ==> event_message_text(event) is None,
{
    reveal_strlit("agent_message");
    reveal_strlit("message");
    reveal_strlit("assistant_message");
    let empty = Seq::<char>::empty();
    assert(empty != "agent_message"@ && empty != "message"@ && empty != "assistant_message"@) by {
        assert("agent_message"@.len() > 0 && "message"@.len() > 0 && "assistant_message"@.len() > 0);
    }
    assert(crate::chat::or_default(None, empty) == empty);
}

/// The `text` strings of content parts that have one.
pub open spec fn part_strings(parts: Seq<JsonV>) -> Seq<Seq<char>>
    decreases parts.len(),
{
    if parts.len() == 0 {
        Seq::empty()
    } else {
        let r = part_strings(parts.drop_last());
        match get_str(parts.last(), "text"@) {
            Some(t) => r.push(t),
            None => r,
        }
    }
}

fn part_strings_of(parts: &Vec<Json>) -> (r: Vec<String>)
    ensures
        text::views_of_strings(r@) == part_strings(views(parts@)),
{
    let ghost pv = views(parts@);
    let mut out: Vec<String> = Vec::new();
    let mut i: usize = 0;
    assert(pv.take(0) =~= Seq::<JsonV>::empty());
    assert(text::views_of_strings(out@) =~= Seq::<Seq<char>>::empty());
    while i < parts.len()
        invariant
            i <= parts.len(),
            pv == views(parts@),
            text::views_of_strings(out@) == part_strings(pv.take(i as int)),
        decreases parts.len() - i,
    {
        assert(pv.take(i + 1).drop_last() =~= pv.take(i as int));
        assert(pv.take(i + 1).last() == parts@[i as int]@);
        let ghost before = text::views_of_strings(out@);
        match parts[i].get_str("text") {
            Some(t) => {
                let o = text::owned(t);
                let ghost ov = o@;
                out.push(o);
                assert(text::views_of_strings(out@) =~= before.push(ov));
            },
            None => {},
        }
        i = i + 1;
    }
    assert(pv.take(parts.len() as int) =~= pv);
    out
}

fn first_str_of(v: &Json, a: &str, b: &str, c: &str) -> (r: Option<String>)
    ensures
        crate::chat::opt_string(r) == if get_str(v@, a@) is Some {
            get_str(v@, a@)
        } else if get_str(v@, b@) is Some {
            get_str(v@, b@)
        } else {
            get_str(v@, c@)
        },
{
    match v.get_str(a) {
        Some(t) => return Some(text::owned(t)),
        None => {},
    }
    match v.get_str(b) {
        Some(t) => return Some(text::owned(t)),
        None => {},
    }
    match v.get_str(c) {
        Some(t) => Some(text::owned(t)),
        None => None,
    }
}

/// The answer text a Codex JSON event carries, if any (`extract_message_text`).
pub fn extract_message_text(event: &Json) -> (r: Option<String>)
    ensures
        crate::chat::opt_string(r) == event_message_text(event@),
{
    let t = match event.get_str("type") {
        Some(t) => t,
        None => "",
    };
    let kinds: [&str; 3] = ["agent_message", "message", "assistant_message"];
    proof {
        reveal_strlit("");
        assert(text::views_of_strs(kinds@) =~= seq!["agent_message"@, "message"@, "assistant_message"@]);
        assert(t@ == crate::chat::or_default(get_str(event@, "type"@), Seq::empty()));
    }
    let is_message = text::strs_contain(&kinds, t);
    assert(is_message == (t@ == "agent_message"@ || t@ == "message"@ || t@ == "assistant_message"@));
    if is_message {
        let found = first_str_of(event, "message", "text", "content");
        if found.is_some() {
            return found;
        }
    }
    let item = match event.get("item") {
        Some(item) => item,
        None => return None,
    };
    let found = first_str_of(item, "message", "text", "content");
    if found.is_some() {
        return found;
    }
    match item.get_array("content") {
        Some(parts) => {
            let texts = part_strings_of(parts);
            let joined = text::join_strings(&texts, "\n");
            if joined.as_str().is_empty() {
                None
            } else {
                Some(joined)
            }
        },
        None => None,
    }
}

/// The token counts of a Codex JSON event that has a `usage` object; a
/// missing or non-numeric count is zero.
pub open spec fn event_usage(event: JsonV) -> Option<TokenUsage> {
    match jget(event, "usage"@) {
        None => None,
        Some(u) => Some(
            TokenUsage {
                input_tokens: count_or_zero(get_u64(u, "input_tokens"@)),
                cached_input_tokens: count_or_zero(get_u64(u, "cached_input_tokens"@)),
                output_tokens: count_or_zero(get_u64(u, "output_tokens"@)),
                reasoning_output_tokens: count_or_zero(get_u64(u, "reasoning_output_tokens"@)),
            },
        ),
    }
}

pub open spec fn count_or_zero(o: Option<u64>) -> u64 {
    match o {
        Some(n) => n,
        None => 0,
    }
}

/// The count a usage object gives under `key`: its number, or zero.
pub open spec fn usage_count(usage: JsonV, key: Seq<char>) -> u64 {
    match crate::json::jget(usage, key) {
        Some(JsonV::UInt(n)) => n,
        Some(JsonV::Int(n)) => if n >= 0 {
            n as u64
        } else {
            0
        },
        _ => 0,
    }
}

/// Each token count is read from the usage field of its own name: an event
/// with a `usage` object reports `input_tokens`, `cached_input_tokens`,
/// `output_tokens` and `reasoning_output_tokens` as the numbers stored under
/// those names (zero where there is none); an event without one reports nothing.
pub proof fn law_usage_counts_by_name(event: JsonV)
    ensures
        (event_usage(event) is None) == (crate::json::jget(event, "usage"@) is None),
        crate::json::jget(event, "usage"@) matches Some(u) ==> event_usage(event) == Some(
            TokenUsage {
                input_tokens: usage_count(u, "input_tokens"@),
                cached_input_tokens: usage_count(u, "cached_input_tokens"@),
                output_tokens: usage_count(u, "output_tokens"@),
                reasoning_output_tokens: usage_count(u, "reasoning_output_tokens"@),
            },
        ),
{
}

fn count_of(v: &Json, key: &str) -> (r: u64)
    ensures
        r == count_or_zero(get_u64(v@, key@)),
{
    match v.get_u64(key) {
        Some(n) => n,
        None => 0,
    }
}

/// The token counts a Codex JSON event reports, if any (`extract_usage`).
pub fn extract_usage(event: &Json) -> (r: Option<TokenUsage>)
    ensures
        r == event_usage(event@),
{
    let usage = match event.get("usage") {
        Some(u) => u,
        None => return None,
    };
    Some(
        TokenUsage {
            input_tokens: count_of(usage, "input_tokens"),
            cached_input_tokens: count_of(usage, "cached_input_tokens"),
            output_tokens: count_of(usage, "output_tokens"),
            reasoning_output_tokens: count_of(usage, "reasoning_output_tokens"),
        },
    )
}

/// The pieces of `s` between `'\n'` separators.
pub open spec fn split_newlines(s: Seq<char>) -> Seq<Seq<char>>
    decreases s.len(),
{
    match text::index_of_char(s, '\n') {
        Some(i) => if 0 <= i < s.len() {
            seq![s.take(i)] + split_newlines(s.skip(i + 1))
        } else {
            seq![s]
        },
        None => seq![s],
    }
}

/// A line without the `'\r'` of a `"\r\n"` ending.
pub open spec fn strip_cr(line: Seq<char>) -> Seq<char> {
    if line.len() > 0 && line.last() == '\r' {
        line.drop_last()
    } else {
        line
    }
}

/// The pieces of `s` between newlines; a piece that ended in a newline loses
/// a `'\r'` before it. Unlike `str::lines`, a last empty piece after a final
/// newline is kept; every use skips blank lines, so the two agree there.
pub open spec fn str_lines(s: Seq<char>) -> Seq<Seq<char>> {
    let pieces = split_newlines(s);
    Seq::new(
        pieces.len(),
        |i: int|
            if i < pieces.len() - 1 {
                strip_cr(pieces[i])
            } else {
                pieces[i]
            },
    )
}

/// The non-blank lines of `lines`, in order.
pub open spec fn non_blank_lines(lines: Seq<Seq<char>>) -> Seq<Seq<char>>
    decreases lines.len(),
{
    if lines.len() == 0 {
        Seq::empty()
    } else if text::is_blank(lines.last()) {
        non_blank_lines(lines.drop_last())
    } else {
        non_blank_lines(lines.drop_last()).push(lines.last())
    }
}

/// The lines of Codex's output that may hold a JSON event: the non-blank ones.
pub open spec fn jsonl_lines(stdout: Seq<char>) -> Seq<Seq<char>> {
    non_blank_lines(str_lines(stdout))
}

proof fn lemma_index_of_char_bounds(s: Seq<char>, c: char)
    ensures
        match text::index_of_char(s, c) {
            Some(i) => 0 <= i < s.len() && s[i] == c,
            None => forall|k: int| 0 <= k < s.len() ==> s[k] != c,
        },
    decreases s.len(),
{
    if s.len() > 0 && s[0] != c {
        lemma_index_of_char_bounds(s.drop_first(), c);
        match text::index_of_char(s.drop_first(), c) {
            Some(i) => {},
            None => {
                assert forall|k: int| 0 <= k < s.len() implies s[k] != c by {
                    if k > 0 {
                        assert(s[k] == s.drop_first()[k - 1]);
                    }
                }
            },
        }
    }
}

/// The pieces of `s` between newlines.
pub fn split_newlines_of(s: &[char]) -> (r: Vec<Vec<char>>)
    ensures
        r@.len() == split_newlines(s@).len(),
        forall|i: int| 0 <= i < r@.len() ==> (#[trigger] r@[i])@ == split_newlines(s@)[i],
{
    let mut pieces: Vec<Vec<char>> = Vec::new();
    let ghost mut done: Seq<Seq<char>> = Seq::empty();
    let mut start: usize = 0;
    assert(s@.skip(0) =~= s@);
    loop
        invariant_except_break
            start <= s.len(),
            pieces@.len() == done.len(),
            forall|k: int| 0 <= k < done.len() ==> (#[trigger] pieces@[k])@ == done[k],
            split_newlines(s@) == done + split_newlines(s@.skip(start as int)),
        ensures
            pieces@.len() == split_newlines(s@).len(),
            forall|k: int| 0 <= k < pieces@.len() ==> (#[trigger] pieces@[k])@ == split_newlines(s@)[k],
        decreases s.len() - start,
    {
        let ghost rest = s@.skip(start as int);
        match text::find_char(s, '\n', start) {
            Some(i) => {
                let piece = vstd::slice::slice_to_vec(&s[start..i]);
                proof {
                    lemma_index_of_char_bounds(rest, '\n');
                    assert(piece@ =~= rest.take(i - start));
                    assert(rest.skip(i - start + 1) =~= s@.skip(i + 1));
                }
                let ghost pv = piece@;
                pieces.push(piece);
                proof {
                    assert(done.push(pv) + split_newlines(s@.skip(i + 1)) =~= done + (seq![pv]
                        + split_newlines(s@.skip(i + 1))));
                    done = done.push(pv);
                }
                start = i + 1;
            },
            None => {
                let piece = vstd::slice::slice_to_vec(&s[start..s.len()]);
                assert(piece@ =~= rest);
                let ghost pv = piece@;
                pieces.push(piece);
                proof {
                    assert(done.push(pv) =~= done + seq![rest]);
                    done = done.push(pv);
                }
                break;
            },
        }
    }
    pieces
}

/// The non-blank lines of Codex's output, to be read as JSON events.
pub fn codex_jsonl_lines(stdout: &str) -> (r: Vec<String>)
    ensures
        text::views_of_strings(r@) == jsonl_lines(stdout@),
{
    let chars = text::chars_of(stdout);
    let pieces = split_newlines_of(chars.as_slice());
    let ghost lines = str_lines(chars@);
    let mut out: Vec<String> = Vec::new();
    let mut i: usize = 0;
    assert(lines.take(0) =~= Seq::<Seq<char>>::empty());
    assert(text::views_of_strings(out@) =~= Seq::<Seq<char>>::empty());
    while i < pieces.len()
        invariant
            i <= pieces.len(),
            lines == str_lines(chars@),
            pieces@.len() == split_newlines(chars@).len(),
            forall|k: int| 0 <= k < pieces@.len() ==> (#[trigger] pieces@[k])@ == split_newlines(chars@)[k],
            text::views_of_strings(out@) == non_blank_lines(lines.take(i as int)),
        decreases pieces.len() - i,
    {
        let piece = &pieces[i];
        let mut n = piece.len();
        if i + 1 < pieces.len() && n > 0 && piece[n - 1] == '\r' {
            n = n - 1;
        }
        let line = text::string_from_chars(&piece.as_slice()[0..n]);
        assert(line@ =~= lines[i as int]);
        assert(lines.take(i + 1).drop_last() =~= lines.take(i as int));
        let ghost before = text::views_of_strings(out@);
        let ghost lv = line@;
        if !text::str_is_blank(line.as_str()) {
            out.push(line);
            assert(text::views_of_strings(out@) =~= before.push(lv));
        }
        i = i + 1;
    }
    assert(lines.take(pieces.len() as int) =~= lines);
    out
}

/// The model of an optional event.
pub open spec fn event_views(events: Seq<Option<Json>>) -> Seq<Option<JsonV>> {
    Seq::new(events.len(), |i: int| crate::chat::opt_value(events[i]))
}

/// The answer texts that a list of events carries, in order.
pub open spec fn event_texts(events: Seq<Option<JsonV>>) -> Seq<Seq<char>>
    decreases events.len(),
{
    if events.len() == 0 {
        Seq::empty()
    } else {
        let r = event_texts(events.drop_last());
        match events.last() {
            Some(e) => match event_message_text(e) {
                Some(t) => r.push(t),
                None => r,
            },
            None => r,
        }
    }
}

/// The last token counts that a list of events reports.
pub open spec fn last_usage(events: Seq<Option<JsonV>>) -> TokenUsage
    decreases events.len(),
{
    if events.len() == 0 {
        zero_usage()
    } else {
        match events.last() {
            Some(e) => match event_usage(e) {
                Some(u) => u,
                None => last_usage(events.drop_last()),
            },
            None => last_usage(events.drop_last()),
        }
    }
}

/// The answer of a Codex run: its last message, else all of its output, trimmed.
pub open spec fn answer_text(stdout: Seq<char>, texts: Seq<Seq<char>>) -> Seq<char> {
    if texts.len() > 0 {
        texts.last()
    } else {
        text::trim(stdout)
    }
}

/// Reads Codex's answer and token counts from its output and the JSON events
/// of its non-blank lines, `None` for lines that are not JSON
/// (`parse_codex_jsonl` once the lines are read).
pub fn summarize_codex_events(stdout: &str, events: &[Option<Json>]) -> (r: (String, TokenUsage))
    ensures
        r.0@ == answer_text(stdout@, event_texts(event_views(events@))),
        r.1 == last_usage(event_views(events@)),
{
    let ghost ev = event_views(events@);
    let mut texts: Vec<String> = Vec::new();
    let mut usage = TokenUsage::default();
    let mut i: usize = 0;
    assert(ev.take(0) =~= Seq::<Option<JsonV>>::empty());
    assert(text::views_of_strings(texts@) =~= Seq::<Seq<char>>::empty());
    while i < events.len()
        invariant
            i <= events.len(),
            ev == event_views(events@),
            text::views_of_strings(texts@) == event_texts(ev.take(i as int)),
            usage == last_usage(ev.take(i as int)),
        decreases events.len() - i,
    {
        assert(ev.take(i + 1).drop_last() =~= ev.take(i as int));
        assert(ev.take(i + 1).last() == crate::chat::opt_value(events@[i as int]));
        let ghost before = text::views_of_strings(texts@);
        match &events[i] {
            Some(event) => {
                match extract_message_text(event) {
                    Some(t) => {
                        let ghost tv = t@;
                        texts.push(t);
                        assert(text::views_of_strings(texts@) =~= before.push(tv));
                    },
                    None => {},
                }
                match extract_usage(event) {
                    Some(u) => {
                        usage = u;
                    },
                    None => {},
                }
            },
            None => {},
        }
        i = i + 1;
    }
    assert(ev.take(events.len() as int) =~= ev);
    let text = if texts.len() > 0 {
        texts[texts.len() - 1].clone()
    } else {
        text::trimmed(stdout)
    };
    (text, usage)
}

/// The message for a Codex run that exited unsuccessfully.
pub open spec fn exit_failure_text(stdout: Seq<char>) -> Seq<char> {
    "Codex CLI failed: "@ + error_excerpt(stdout)
}

/// The message for a Codex run that printed something but no answer.
pub open spec fn no_answer_text(stdout: Seq<char>) -> Seq<char> {
    "Codex CLI returned no assistant text. Raw output: "@ + error_excerpt(stdout)
}

/// The result of a Codex run from its output, its events, how it exited
/// and how long it took.
pub open spec fn run_result(
    stdout: Seq<char>,
    texts: Seq<Seq<char>>,
    usage: TokenUsage,
    success: bool,
    duration_ms: u64,
) -> Result<(Seq<char>, TokenUsage, u64), Seq<char>> {
    if !success {
        Err(exit_failure_text(stdout))
    } else {
        let answer = answer_text(stdout, texts);
        if text::is_blank(answer) && !text::is_blank(stdout) {
            Err(no_answer_text(stdout))
        } else {
            Ok((answer, usage, duration_ms))
        }
    }
}

/// The model of a Codex run's result.
pub open spec fn result_view(r: Result<CodexResult, String>) -> Result<(Seq<char>, TokenUsage, u64), Seq<char>> {
    match r {
        Ok(c) => Ok((c.text@, c.usage, c.duration_ms)),
        Err(e) => Err(e@),
    }
}

/// `"Codex CLI failed: ..."`.
pub fn exit_failure_message(stdout: &str) -> (r: String)
    ensures
        r@ == exit_failure_text(stdout@),
{
    let mut r = text::owned("Codex CLI failed: ");
    let excerpt = truncate_for_error(stdout);
    text::push_str(&mut r, excerpt.as_str());
    r
}

fn finish_run(stdout: &str, answer: String, usage: TokenUsage, duration_ms: u64) -> (r: Result<
    CodexResult,
    String,
>)
    ensures
        result_view(r) == if text::is_blank(answer@) && !text::is_blank(stdout@) {
            Err::<(Seq<char>, TokenUsage, u64), Seq<char>>(no_answer_text(stdout@))
        } else {
            Ok((answer@, usage, duration_ms))
        },
{
    if text::str_is_blank(answer.as_str()) && !text::str_is_blank(stdout) {
        let mut e = text::owned("Codex CLI returned no assistant text. Raw output: ");
        let excerpt = truncate_for_error(stdout);
        text::push_str(&mut e, excerpt.as_str());
        return Err(e);
    }
    Ok(CodexResult { text: answer, usage, duration_ms })
}

/// The result of a finished Codex run, from its output and the JSON events
/// of its lines (`RealCodexExecutor::execute` once Codex has exited
/// successfully).
pub fn codex_result_from_output(stdout: &str, events: &[Option<Json>], duration_ms: u64) -> (r: Result<
    CodexResult,
    String,
>)
    ensures
        result_view(r) == run_result(
            stdout@,
            event_texts(event_views(events@)),
            last_usage(event_views(events@)),
            true,
            duration_ms,
        ),
{
    let (answer, usage) = summarize_codex_events(stdout, events);
    finish_run(stdout, answer, usage, duration_ms)
}

/// The message for a Codex run that ran out of time.
pub open spec fn timeout_text(timeout_ms: u64) -> Seq<char> {
    "Codex CLI request timed out after "@ + text::decimal(
        if timeout_ms / 1000 == 0 { 1 } else { (timeout_ms / 1000) as nat },
    ) + "s"@
}

/// `"Codex CLI request timed out after Ns"`, at least one second.
pub fn timeout_message(timeout_ms: u64) -> (r: String)
    ensures
        r@ == timeout_text(timeout_ms),
{
    let secs = timeout_ms / 1000;
    let mut r = text::owned("Codex CLI request timed out after ");
    text::push_decimal(&mut r, if secs == 0 { 1 } else { secs });
    text::push_str(&mut r, "s");
    r
}

/// The JSON event an output line holds: the line, trimmed, when it parses.
pub open spec fn line_event(line: Seq<char>) -> Option<JsonV> {
    match crate::json::json_parse(text::trim(line)) {
        Ok(v) => Some(v),
        Err(_) => None,
    }
}

/// The JSON event of each line, where it parses.
pub open spec fn parsed_events(lines: Seq<Seq<char>>) -> Seq<Option<JsonV>> {
    Seq::new(
        lines.len(),
        |i: int|
            match crate::json::json_parse(lines[i]) {
                Ok(v) => Some(v),
                Err(_) => None,
            },
    )
}

fn parse_events(lines: &Vec<String>) -> (r: Vec<Option<Json>>)
    ensures
        event_views(r@) == parsed_events(text::views_of_strings(lines@)),
{
    let ghost lv = text::views_of_strings(lines@);
    let mut r: Vec<Option<Json>> = Vec::new();
    let mut i: usize = 0;
    while i < lines.len()
        invariant
            i <= lines.len(),
            lv == text::views_of_strings(lines@),
            event_views(r@) == parsed_events(lv).take(i as int),
        decreases lines.len() - i,
    {
        let parsed = crate::json::parse_json_text(lines[i].as_str());
        assert(lines@[i as int]@ == lv[i as int]);
        let e = match parsed {
            Ok(v) => Some(v),
            Err(_) => None,
        };
        assert(crate::chat::opt_value(e) == parsed_events(lv)[i as int]);
        let ghost before = event_views(r@);
        r.push(e);
        assert(event_views(r@) =~= before.push(crate::chat::opt_value(e)));
        i = i + 1;
        assert(event_views(r@) =~= parsed_events(lv).take(i as int));
    }
    assert(parsed_events(lv).take(lines.len() as int) =~= parsed_events(lv));
    r
}

/// Reads Codex's answer and token counts from its JSON-lines output: each
/// non-blank line that parses is an event (`parse_codex_jsonl`).
pub fn parse_codex_jsonl(stdout: &str) -> (r: (String, TokenUsage))
    ensures
        r.0@ == answer_text(stdout@, event_texts(parsed_events(jsonl_lines(stdout@)))),
        r.1 == last_usage(parsed_events(jsonl_lines(stdout@))),
{
    let lines = codex_jsonl_lines(stdout);
    let events = parse_events(&lines);
    summarize_codex_events(stdout, events.as_slice())
}

/// The result of a Codex run that exited successfully after `duration_ms`,
/// read from its output (`RealCodexExecutor::execute` once Codex has run).
pub fn codex_result_of_output(stdout: &str, duration_ms: u64) -> (r: Result<CodexResult, String>)
    ensures
        result_view(r) == run_result(
            stdout@,
            event_texts(parsed_events(jsonl_lines(stdout@))),
            last_usage(parsed_events(jsonl_lines(stdout@))),
            true,
            duration_ms,
        ),
{
    let lines = codex_jsonl_lines(stdout);
    let events = parse_events(&lines);
    codex_result_from_output(stdout, events.as_slice(), duration_ms)
}

/// How long a stream may go without news before it sends a keep-alive, in
/// milliseconds.
pub const KEEPALIVE_INTERVAL_MS: u64 = 10_000;

/// Whether a keep-alive is due after `since_last_ms` milliseconds without one.
pub fn keepalive_due(since_last_ms: u64) -> (r: bool)
    ensures
        r == (since_last_ms >= KEEPALIVE_INTERVAL_MS),
{
    since_last_ms >= KEEPALIVE_INTERVAL_MS
}

/// Whether a Codex run that has taken `elapsed_ms` has used up the
/// configured `timeout_ms` and must be stopped.
pub fn run_timed_out(elapsed_ms: u64, timeout_ms: u64) -> (r: bool)
    ensures
        r == (elapsed_ms >= timeout_ms),
{
    elapsed_ms >= timeout_ms
}

/// What a stream has seen so far.
#[derive(Debug)]
pub struct CodexStreamState {
    pub stdout: String,
    pub message_texts: Vec<String>,
    pub usage: TokenUsage,
    pub last_sent_text: String,
}

/// The new text a message adds to what was already sent: its tail when it
/// extends the sent text, else all of it.
pub open spec fn stream_delta(last_sent: Seq<char>, t: Seq<char>) -> Seq<char> {
    if last_sent.is_prefix_of(t) {
        t.skip(last_sent.len() as int)
    } else {
        t
    }
}

/// What a stream has sent after seeing the message texts `texts` in turn:
/// the text counted as sent, and everything sent so far.
pub open spec fn sent_after(texts: Seq<Seq<char>>) -> (Seq<char>, Seq<char>)
    decreases texts.len(),
{
    if texts.len() == 0 {
        (Seq::empty(), Seq::empty())
    } else {
        let (last_sent, streamed) = sent_after(texts.drop_last());
        let d = stream_delta(last_sent, texts.last());
        if d.len() > 0 {
            (texts.last(), streamed + d)
        } else {
            (last_sent, streamed)
        }
    }
}

/// Each message text extends the ones before it.
pub open spec fn growing(texts: Seq<Seq<char>>) -> bool {
    forall|i: int, j: int| 0 <= i <= j < texts.len() ==> #[trigger] texts[i].is_prefix_of(
        #[trigger] texts[j],
    )
}

/// When each message Codex reports extends the previous one, the deltas a
/// stream sends add up to exactly the last message: the streamed text is the
/// answer.
pub proof fn law_stream_deltas_rebuild_answer(stdout: Seq<char>, texts: Seq<Seq<char>>)
    requires
        growing(texts),
        texts.len() > 0,
    ensures
        sent_after(texts).1 == answer_text(stdout, texts),
{
    lemma_sent_after_growing(texts);
}

proof fn lemma_sent_after_growing(texts: Seq<Seq<char>>)
    requires
        growing(texts),
    ensures
        sent_after(texts).0 == sent_after(texts).1,
        texts.len() > 0 ==> sent_after(texts).0 == texts.last(),
    decreases texts.len(),
{
    if texts.len() > 0 {
        let pre = texts.drop_last();
        assert(growing(pre)) by {
            assert forall|i: int, j: int| 0 <= i <= j < pre.len() implies #[trigger] pre[i].is_prefix_of(
                #[trigger] pre[j],
            ) by {
                assert(pre[i] == texts[i] && pre[j] == texts[j]);
                assert(texts[i].is_prefix_of(texts[j]));
            }
        }
        lemma_sent_after_growing(pre);
        let l = sent_after(pre).0;
        let t = texts.last();
        if pre.len() > 0 {
            assert(texts[pre.len() - 1].is_prefix_of(texts[texts.len() - 1]));
            assert(l.is_prefix_of(t));
        } else {
            assert(l =~= Seq::<char>::empty());
            assert(l.is_prefix_of(t));
        }
        let d = stream_delta(l, t);
        assert(d =~= t.skip(l.len() as int));
        assert(t =~= l + d) by {
            assert(t.take(l.len() as int) =~= l);
            assert(t =~= t.take(l.len() as int) + t.skip(l.len() as int));
        }
        if d.len() == 0 {
            assert(t =~= l);
        }
    }
}

impl CodexStreamState {
    /// Nothing seen yet.
    pub fn new() -> (r: CodexStreamState)
        ensures
            r.stdout@ == Seq::<char>::empty(),
            r.message_texts@.len() == 0,
            r.usage == zero_usage(),
            r.last_sent_text@ == Seq::<char>::empty(),
    {
        CodexStreamState {
            stdout: String::new(),
            message_texts: Vec::new(),
            usage: TokenUsage::default(),
            last_sent_text: String::new(),
        }
    }

    /// Takes one output line, read as a JSON event when it parses. Returns
    /// the new answer text to send, if any; the text counts as sent.
    pub fn on_line(&mut self, line: &str) -> (delta: Option<String>)
        ensures
            final(self).stdout@ == old(self).stdout@ + line@,
            match line_event(line@) {
                None => text::views_of_strings(final(self).message_texts@) == text::views_of_strings(
                    old(self).message_texts@,
                ) && final(self).usage == old(self).usage && final(self).last_sent_text@ == old(
                    self,
                ).last_sent_text@ && delta is None,
                Some(e) => {
                    &&& text::views_of_strings(final(self).message_texts@) == match event_message_text(e) {
                        Some(t) => text::views_of_strings(old(self).message_texts@).push(t),
                        None => text::views_of_strings(old(self).message_texts@),
                    }
                    &&& final(self).usage == match event_usage(e) {
                        Some(u) => u,
                        None => old(self).usage,
                    }
                    &&& match event_message_text(e) {
                        Some(t) => {
                            let d = stream_delta(old(self).last_sent_text@, t);
                            if d.len() > 0 {
                                delta is Some && delta->0@ == d && final(self).last_sent_text@ == t
                            } else {
                                delta is None && final(self).last_sent_text@ == old(
                                    self,
                                ).last_sent_text@
                            }
                        },
                        None => delta is None && final(self).last_sent_text@ == old(
                            self,
                        ).last_sent_text@,
                    }
                },
            },
    {
        text::push_str(&mut self.stdout, line);
        let trimmed = text::trimmed(line);
        let parsed = crate::json::parse_json_text(trimmed.as_str());
        let event = match &parsed {
            Ok(e) => e,
            Err(_) => return None,
        };
        let mut delta = None;
        match extract_message_text(event) {
            Some(t) => {
                let ghost before = text::views_of_strings(self.message_texts@);
                let ghost tv = t@;
                let tc = text::chars_of(t.as_str());
                let lc = text::chars_of(self.last_sent_text.as_str());
                let d = if text::chars_starts_with(tc.as_slice(), lc.as_slice()) {
                    text::string_from_chars(&tc.as_slice()[lc.len()..tc.len()])
                } else {
                    t.clone()
                };
                assert(d@ =~= stream_delta(self.last_sent_text@, tv));
                if !d.as_str().is_empty() {
                    self.last_sent_text = t.clone();
                    delta = Some(d);
                }
                self.message_texts.push(t);
                assert(text::views_of_strings(self.message_texts@) =~= before.push(tv));
            },
            None => {},
        }
        match extract_usage(event) {
            Some(u) => {
                self.usage = u;
            },
            None => {},
        }
        delta
    }

    /// The result once Codex has exited, successfully or not, after `duration_ms`.
    pub fn finish(&self, exit_success: bool, duration_ms: u64) -> (r: Result<CodexResult, String>)
        ensures
            result_view(r) == run_result(
                self.stdout@,
                text::views_of_strings(self.message_texts@),
                self.usage,
                exit_success,
                duration_ms,
            ),
    {
        if !exit_success {
            return Err(exit_failure_message(self.stdout.as_str()));
        }
        let answer = if self.message_texts.len() > 0 {
            self.message_texts[self.message_texts.len() - 1].clone()
        } else {
            text::trimmed(self.stdout.as_str())
        };
        finish_run(self.stdout.as_str(), answer, self.usage, duration_ms)
    }
}

/// Prompts longer than this many bytes go to Codex on standard input.
pub const MAX_PROMPT_ARG_BYTES: usize = 120_000;

/// `flag value` when `value` is not blank, with `value` trimmed.
pub open spec fn optional_flag(flag: Seq<char>, value: Seq<char>) -> Seq<Seq<char>> {
    if text::is_blank(value) {
        Seq::empty()
    } else {
        seq![flag, text::trim(value)]
    }
}

/// The arguments of the `codex` command for one prompt.
pub open spec fn codex_args(s: crate::settings::AppSettings, prompt: Seq<char>) -> Seq<Seq<char>> {
    let base = seq![
        "exec"@,
        "--json"@,
        "--color"@,
        "never"@,
        "-s"@,
        s.codex_sandbox@,
        "--skip-git-repo-check"@,
        "--ephemeral"@,
    ];
    let approval = if s.codex_approval@ == "never"@ {
        seq!["-c"@, "approval_policy=never"@]
    } else if s.codex_approval@ == "untrusted"@ {
        seq!["-c"@, "approval_policy=on-failure"@]
    } else {
        Seq::empty()
    };
    let bypass = if s.codex_sandbox@ == "danger-full-access"@ && s.codex_approval@ == "never"@ {
        seq!["--dangerously-bypass-approvals-and-sandbox"@]
    } else {
        Seq::empty()
    };
    let last = if text::byte_len(prompt) > MAX_PROMPT_ARG_BYTES {
        seq!["-"@]
    } else {
        seq![prompt]
    };
    base + optional_flag("-m"@, s.codex_model@) + optional_flag("-p"@, s.codex_profile@)
        + optional_flag("-C"@, s.codex_workdir@) + approval + bypass + last
}

/// Whether `args` holds `flag` immediately followed by `value`.
pub open spec fn has_flag(args: Seq<Seq<char>>, flag: Seq<char>, value: Seq<char>) -> bool {
    exists|i: int| 0 <= i && i + 1 < args.len() && #[trigger] args[i] == flag && args[i + 1] == value
}

/// The command runs `codex exec --json` with the chosen sandbox, passes each
/// chosen model, profile and working directory (trimmed) after its flag, the
/// model right after the fixed arguments, the approval policy Codex knows
/// for `never` and `untrusted`, and ends with the prompt, or `-` when the
/// prompt goes to standard input.
pub proof fn law_codex_args_carry_settings(s: crate::settings::AppSettings, prompt: Seq<char>)
    ensures
        ({
            let a = codex_args(s, prompt);
            &&& a.len() >= 9
            &&& a.len() == 9 + (if text::is_blank(s.codex_model@) { 0int } else { 2int }) + (if text::is_blank(
                s.codex_profile@,
            ) {
                0int
            } else {
                2int
            }) + (if text::is_blank(s.codex_workdir@) { 0int } else { 2int }) + (if s.codex_approval@
                == "never"@ || s.codex_approval@ == "untrusted"@ {
                2int
            } else {
                0int
            }) + (if s.codex_sandbox@ == "danger-full-access"@ && s.codex_approval@ == "never"@ {
                1int
            } else {
                0int
            })
            &&& a[0] == "exec"@ && a[1] == "--json"@ && a[4] == "-s"@ && a[5] == s.codex_sandbox@
            &&& a[7] == "--ephemeral"@
            &&& !text::is_blank(s.codex_model@) ==> a[8] == "-m"@ && a[9] == text::trim(
                s.codex_model@,
            )
            &&& !text::is_blank(s.codex_model@) ==> has_flag(a, "-m"@, text::trim(s.codex_model@))
            &&& !text::is_blank(s.codex_profile@) ==> has_flag(
                a,
                "-p"@,
                text::trim(s.codex_profile@),
            )
            &&& !text::is_blank(s.codex_workdir@) ==> has_flag(
                a,
                "-C"@,
                text::trim(s.codex_workdir@),
            )
            &&& s.codex_approval@ == "never"@ ==> has_flag(a, "-c"@, "approval_policy=never"@)
            &&& s.codex_approval@ == "untrusted"@ ==> has_flag(
                a,
                "-c"@,
                "approval_policy=on-failure"@,
            )
            &&& a.last() == if text::byte_len(prompt) > MAX_PROMPT_ARG_BYTES {
                "-"@
            } else {
                prompt
            }
        }),
{
    let base = seq![
        "exec"@,
        "--json"@,
        "--color"@,
        "never"@,
        "-s"@,
        s.codex_sandbox@,
        "--skip-git-repo-check"@,
        "--ephemeral"@,
    ];
    let m = optional_flag("-m"@, s.codex_model@);
    let p = optional_flag("-p"@, s.codex_profile@);
    let c = optional_flag("-C"@, s.codex_workdir@);
    let approval = if s.codex_approval@ == "never"@ {
        seq!["-c"@, "approval_policy=never"@]
    } else if s.codex_approval@ == "untrusted"@ {
        seq!["-c"@, "approval_policy=on-failure"@]
    } else {
        Seq::empty()
    };
    let bypass = if s.codex_sandbox@ == "danger-full-access"@ && s.codex_approval@ == "never"@ {
        seq!["--dangerously-bypass-approvals-and-sandbox"@]
    } else {
        Seq::empty()
    };
    let last = if text::byte_len(prompt) > MAX_PROMPT_ARG_BYTES {
        seq!["-"@]
    } else {
        seq![prompt]
    };
    let a = codex_args(s, prompt);
    reveal_strlit("never");
    reveal_strlit("untrusted");
    assert(a == base + m + p + c + approval + bypass + last);
    let i_m = 8int;
    let i_p: int = (8 + m.len()) as int;
    let i_c: int = (8 + m.len() + p.len()) as int;
    let i_a: int = (8 + m.len() + p.len() + c.len()) as int;
    assert(a.len() == 8 + m.len() + p.len() + c.len() + approval.len() + bypass.len() + 1);
    if !text::is_blank(s.codex_model@) {
        assert(a[i_m] == m[0] && a[i_m + 1] == m[1]);
    }
    if !text::is_blank(s.codex_profile@) {
        assert(a[i_p] == p[0] && a[i_p + 1] == p[1]);
    }
    if !text::is_blank(s.codex_workdir@) {
        assert(a[i_c] == c[0] && a[i_c + 1] == c[1]);
    }
    if s.codex_approval@ == "untrusted"@ {
        assert(s.codex_approval@.len() != "never"@.len());
        assert(approval == seq!["-c"@, "approval_policy=on-failure"@]);
    }
    if approval.len() > 0 {
        assert(a[i_a] == approval[0] && a[i_a + 1] == approval[1]);
    }
    assert(a.last() == last[0]);
}

/// The `codex` command line for one prompt; a long prompt is written to
/// standard input instead of passed as an argument.
#[derive(Debug)]
pub struct CodexCommand {
    pub use_stdin: bool,
    pub args: Vec<String>,
}

fn push_arg(args: &mut Vec<String>, a: &str)
    ensures
        text::views_of_strings(final(args)@) == text::views_of_strings(old(args)@).push(a@),
{
    let ghost before = text::views_of_strings(args@);
    args.push(text::owned(a));
    assert(text::views_of_strings(args@) =~= before.push(a@));
}

fn push_optional_flag(args: &mut Vec<String>, flag: &str, value: &str)
    ensures
        text::views_of_strings(final(args)@) == text::views_of_strings(old(args)@) + optional_flag(
            flag@,
            value@,
        ),
{
    let ghost before = text::views_of_strings(args@);
    if !text::str_is_blank(value) {
        push_arg(args, flag);
        let t = text::trimmed(value);
        push_arg(args, t.as_str());
    }
    assert(text::views_of_strings(args@) =~= before + optional_flag(flag@, value@));
}

/// The `codex` arguments for a prompt (`build_codex_command` without the
/// executable, which the caller resolves).
pub fn build_codex_args(settings: &crate::settings::AppSettings, prompt: &str) -> (r: CodexCommand)
    ensures
        r.use_stdin == (text::byte_len(prompt@) > MAX_PROMPT_ARG_BYTES),
        text::views_of_strings(r.args@) == codex_args(*settings, prompt@),
{
    let mut args: Vec<String> = Vec::new();
    push_arg(&mut args, "exec");
    push_arg(&mut args, "--json");
    push_arg(&mut args, "--color");
    push_arg(&mut args, "never");
    push_arg(&mut args, "-s");
    push_arg(&mut args, settings.codex_sandbox.as_str());
    push_arg(&mut args, "--skip-git-repo-check");
    push_arg(&mut args, "--ephemeral");
    let ghost after_base = text::views_of_strings(args@);
    push_optional_flag(&mut args, "-m", settings.codex_model.as_str());
    push_optional_flag(&mut args, "-p", settings.codex_profile.as_str());
    push_optional_flag(&mut args, "-C", settings.codex_workdir.as_str());
    let never = text::str_eq(settings.codex_approval.as_str(), "never");
    if never {
        push_arg(&mut args, "-c");
        push_arg(&mut args, "approval_policy=never");
    } else if text::str_eq(settings.codex_approval.as_str(), "untrusted") {
        push_arg(&mut args, "-c");
        push_arg(&mut args, "approval_policy=on-failure");
    }
    if text::str_eq(settings.codex_sandbox.as_str(), "danger-full-access") && never {
        push_arg(&mut args, "--dangerously-bypass-approvals-and-sandbox");
    }
    let use_stdin = prompt.len() > MAX_PROMPT_ARG_BYTES;
    if use_stdin {
        push_arg(&mut args, "-");
    } else {
        push_arg(&mut args, prompt);
    }
    assert(text::views_of_strings(args@) =~= codex_args(*settings, prompt@));
    CodexCommand { use_stdin, args }
}

/// Whether a configured Codex command names a path rather than a program to look up.
pub fn is_explicit_command_path(command: &str) -> (r: bool)
    ensures
        r == (text::index_of_char(command@, '/') is Some || text::index_of_char(command@, '\\') is Some),
{
    let chars = text::chars_of(command);
    proof {
        assert(chars@.skip(0) =~= chars@);
    }
    text::find_char(chars.as_slice(), '/', 0).is_some() || text::find_char(chars.as_slice(), '\\', 0).is_some()
}

/// A model Codex can run, as the panel lists it.
#[derive(Clone, Debug)]
pub struct CodexModelOption {
    pub id: String,
    pub label: String,
}

/// The id of a catalog entry: its first present `id`, `slug` or `name`, if that is a string.
pub open spec fn catalog_id(model: JsonV) -> Option<Seq<char>> {
    let found = match jget(model, "id"@) {
        Some(x) => Some(x),
        None => crate::chat::jget_or(model, "slug"@, "name"@),
    };
    crate::chat::opt_str(found)
}

/// The label of a catalog entry: its `display_name`, else its `name`, else its id.
pub open spec fn catalog_label(model: JsonV, id: Seq<char>) -> Seq<char> {
    match get_str(model, "display_name"@) {
        Some(l) => l,
        None => match get_str(model, "name"@) {
            Some(l) => l,
            None => id,
        },
    }
}

/// The options of the catalog entries that have an id, in order.
pub open spec fn catalog_options(models: Seq<JsonV>) -> Seq<(Seq<char>, Seq<char>)>
    decreases models.len(),
{
    if models.len() == 0 {
        Seq::empty()
    } else {
        let r = catalog_options(models.drop_last());
        match catalog_id(models.last()) {
            Some(id) => r.push((id, catalog_label(models.last(), id))),
            None => r,
        }
    }
}

pub open spec fn option_views(options: Seq<CodexModelOption>) -> Seq<(Seq<char>, Seq<char>)> {
    Seq::new(options.len(), |i: int| (options[i].id@, options[i].label@))
}

/// What `codex debug models` lists, read from its parsed output.
pub open spec fn catalog_result(catalog: JsonV) -> Result<Seq<(Seq<char>, Seq<char>)>, Seq<char>> {
    match get_arr(catalog, "models"@) {
        None => Err("Codex model catalog is missing a models array"@),
        Some(models) => if catalog_options(models).len() == 0 {
            Err("Codex model catalog is empty. Run `codex login` in Terminal, then try again."@)
        } else {
            Ok(catalog_options(models))
        },
    }
}

/// Reads the model options from Codex's parsed model catalog
/// (`parse_codex_models` once the JSON is parsed).
pub fn codex_models_from_catalog(catalog: &Json) -> (r: Result<Vec<CodexModelOption>, String>)
    ensures
        match r {
            Ok(options) => catalog_result(catalog@) == Ok::<Seq<(Seq<char>, Seq<char>)>, Seq<char>>(
                option_views(options@),
            ),
            Err(e) => catalog_result(catalog@) == Err::<Seq<(Seq<char>, Seq<char>)>, Seq<char>>(e@),
        },
{
    let models = match catalog.get_array("models") {
        Some(m) => m,
        None => return Err(text::owned("Codex model catalog is missing a models array")),
    };
    let ghost mv = views(models@);
    let mut options: Vec<CodexModelOption> = Vec::new();
    let mut i: usize = 0;
    assert(mv.take(0) =~= Seq::<JsonV>::empty());
    assert(option_views(options@) =~= Seq::<(Seq<char>, Seq<char>)>::empty());
    while i < models.len()
        invariant
            i <= models.len(),
            mv == views(models@),
            option_views(options@) == catalog_options(mv.take(i as int)),
        decreases models.len() - i,
    {
        assert(mv.take(i + 1).drop_last() =~= mv.take(i as int));
        assert(mv.take(i + 1).last() == models@[i as int]@);
        let model = &models[i];
        let found = match model.get("id") {
            Some(x) => Some(x),
            None => match model.get("slug") {
                Some(x) => Some(x),
                None => model.get("name"),
            },
        };
        let id = match found {
            Some(x) => x.as_str(),
            None => None,
        };
        assert(crate::chat::opt_slice(id) == catalog_id(mv[i as int]));
        match id {
            Some(id) => {
                let label = match model.get_str("display_name") {
                    Some(l) => l,
                    None => match model.get_str("name") {
                        Some(l) => l,
                        None => id,
                    },
                };
                let ghost before = option_views(options@);
                let option = CodexModelOption { id: text::owned(id), label: text::owned(label) };
                let ghost ov = (option.id@, option.label@);
                options.push(option);
                assert(option_views(options@) =~= before.push(ov));
            },
            None => {},
        }
        i = i + 1;
    }
    assert(mv.take(models.len() as int) =~= mv);
    if options.len() == 0 {
        return Err(
            text::owned(
                "Codex model catalog is empty. Run `codex login` in Terminal, then try again.",
            ),
        );
    }
    Ok(options)
}

/// Reads Codex's model catalog from the output of `codex debug models`
/// (`parse_codex_models`): the trimmed text must parse as JSON.
pub fn parse_codex_models(stdout: &str) -> (r: Result<Vec<CodexModelOption>, String>)
    ensures
        match crate::json::json_parse(text::trim(stdout@)) {
            Err(e) => r matches Err(m) && m@ == "Unable to parse codex model catalog: "@ + e,
            Ok(v) => match r {
                Ok(options) => catalog_result(v) == Ok::<Seq<(Seq<char>, Seq<char>)>, Seq<char>>(
                    option_views(options@),
                ),
                Err(m) => catalog_result(v) == Err::<Seq<(Seq<char>, Seq<char>)>, Seq<char>>(m@),
            },
        },
{
    let trimmed = text::trimmed(stdout);
    match crate::json::parse_json_text(trimmed.as_str()) {
        Ok(catalog) => codex_models_from_catalog(&catalog),
        Err(e) => {
            let mut m = text::owned("Unable to parse codex model catalog: ");
            text::push_str(&mut m, e.as_str());
            Err(m)
        },
    }
}

/// Whether the Codex CLI is installed and signed in, as the panel shows it.
#[derive(Clone, Debug)]
pub struct CodexAccountStatus {
    pub cli_installed: bool,
    pub authenticated: bool,
    pub summary: String,
    pub detail: String,
    pub checked_at_ms: u64,
}

/// The status for what was found: whether the CLI is installed, whether a
/// local login exists, and when this was checked; the caller does the
/// looking.
pub fn probe_codex_status(cli_installed: bool, authenticated: bool, checked_at_ms: u64) -> (r:
    CodexAccountStatus)
    ensures
        r.cli_installed == cli_installed,
        r.authenticated == (cli_installed && authenticated),
        r.checked_at_ms == checked_at_ms,
        !cli_installed ==> r.summary@ == "Codex CLI not found"@ && r.detail@
            == "Install the Codex CLI and sign in locally. gpt2cursor reuses that session."@,
        cli_installed && authenticated ==> r.summary@ == "Codex CLI is authenticated"@ && r.detail@
            == "Local CLI session is ready. Per-session token usage updates below; account quota is not exposed by this CLI."@,
        cli_installed && !authenticated ==> r.summary@ == "Codex CLI found; sign in required"@
            && r.detail@
            == "Run `codex login` in Terminal, then refresh. Account quota is unavailable through the local CLI."@,
{
    if !cli_installed {
        return CodexAccountStatus {
            cli_installed: false,
            authenticated: false,
            summary: text::owned("Codex CLI not found"),
            detail: text::owned(
                "Install the Codex CLI and sign in locally. gpt2cursor reuses that session.",
            ),
            checked_at_ms,
        };
    }
    let summary = if authenticated {
        text::owned("Codex CLI is authenticated")
    } else {
        text::owned("Codex CLI found; sign in required")
    };
    let detail = if authenticated {
        text::owned(
            "Local CLI session is ready. Per-session token usage updates below; account quota is not exposed by this CLI.",
        )
    } else {
        text::owned(
            "Run `codex login` in Terminal, then refresh. Account quota is unavailable through the local CLI.",
        )
    };
    CodexAccountStatus { cli_installed: true, authenticated, summary, detail, checked_at_ms }
}

/// The status the panel shows before anything was checked.
pub fn codex_status_placeholder() -> (r: CodexAccountStatus)
    ensures
        !r.cli_installed && !r.authenticated && r.checked_at_ms == 0,
        r.summary@ == "Tap refresh to check Codex CLI"@,
        r.detail@ == "Session token usage updates automatically while the bridge is running."@,
{
    CodexAccountStatus {
        cli_installed: false,
        authenticated: false,
        summary: text::owned("Tap refresh to check Codex CLI"),
        detail: text::owned("Session token usage updates automatically while the bridge is running."),
        checked_at_ms: 0,
    }
}

/// The status the panel shows when the check itself could not run.
pub fn codex_status_unavailable() -> (r: CodexAccountStatus)
    ensures
        !r.cli_installed && !r.authenticated && r.checked_at_ms == 0,
        r.summary@ == "Codex status check failed"@,
        r.detail@ == "Unable to refresh Codex CLI status."@,
{
    CodexAccountStatus {
        cli_installed: false,
        authenticated: false,
        summary: text::owned("Codex status check failed"),
        detail: text::owned("Unable to refresh Codex CLI status."),
        checked_at_ms: 0,
    }
}

} // verus!
