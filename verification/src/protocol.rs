//! The line protocol of the command API: commands and responses as single lines
//! of text.

use crate::collections::texts;
use crate::json::{holds_float, is_written, json_text, Value};
use crate::protocol_laws::{law_command_round_trip, law_command_single_line};
use crate::text::{
    chars_of, decimal, has_prefix, is_space, is_whitespace, parse_u64, push_decimal, same,
    starts_with, string_of, trim, trim_start, trimmed, trimmed_start, u64_of_text,
};
use vstd::prelude::*;
use vstd::slice::slice_subrange;
use vstd::string::*;

verus! {

// ---------------------------------------------------------------------------
// Tokens
// ---------------------------------------------------------------------------

/// The number of characters before the first white space.
pub open spec fn word_len(s: Seq<char>) -> nat
    decreases s.len(),
{
    if s.len() == 0 || is_space(s[0]) {
        0
    } else {
        1 + word_len(s.skip(1))
    }
}

/// The character that stands for `c` after a backslash.
pub open spec fn unescape(c: char) -> char {
    if c == 'n' {
        '\n'
    } else if c == 'r' {
        '\r'
    } else if c == 't' {
        '\t'
    } else {
        c
    }
}

pub open spec fn prepend(c: char, r: Option<(Seq<char>, Seq<char>)>) -> Option<
    (Seq<char>, Seq<char>),
> {
    match r {
        Some((text, rest)) => Some((seq![c] + text, rest)),
        None => None,
    }
}

/// The content of a quoted token that begins behind its opening quote, and what
/// follows its closing quote; nothing if the quote is not closed.
pub open spec fn quoted(s: Seq<char>) -> Option<(Seq<char>, Seq<char>)>
    decreases s.len(),
{
    if s.len() == 0 {
        None
    } else if s[0] == '"' {
        Some((Seq::empty(), s.skip(1)))
    } else if s[0] == '\\' {
        if s.len() < 2 {
            None
        } else {
            prepend(unescape(s[1]), quoted(s.skip(2)))
        }
    } else {
        prepend(s[0], quoted(s.skip(1)))
    }
}

/// The first token of a text and the text behind it.
pub open spec fn token(s: Seq<char>) -> Result<(Seq<char>, Seq<char>), Seq<char>> {
    let t = trim_start(s);
    if t.len() == 0 {
        Err("ERROR missing_argument"@)
    } else if t[0] == '"' {
        match quoted(t.skip(1)) {
            Some(r) => Ok(r),
            None => Err("ERROR invalid_argument"@),
        }
    } else {
        Ok((t.take(word_len(t) as int), t.skip(word_len(t) as int)))
    }
}

/// The first token of a text as a room identifier, and the text behind it.
pub open spec fn room_id_token(s: Seq<char>) -> Result<(u64, Seq<char>), Seq<char>> {
    match token(s) {
        Err(e) => Err(e),
        Ok((t, rest)) => match u64_of_text(t) {
            Some(id) => Ok((id, rest)),
            None => Err("ERROR invalid_room_id"@),
        },
    }
}

proof fn lemma_trim_start_len(s: Seq<char>)
    ensures
        trim_start(s).len() <= s.len(),
        trim_start(s).len() > 0 ==> !is_space(trim_start(s)[0]),
        trim_start(trim_start(s)) == trim_start(s),
    decreases s.len(),
{
    if s.len() > 0 && is_space(s[0]) {
        lemma_trim_start_len(s.skip(1));
    }
}

proof fn lemma_word_len(s: Seq<char>)
    ensures
        word_len(s) <= s.len(),
        s.len() > 0 && !is_space(s[0]) ==> word_len(s) > 0,
    decreases s.len(),
{
    if s.len() > 0 && !is_space(s[0]) {
        lemma_word_len(s.skip(1));
    }
}

proof fn lemma_quoted_len(s: Seq<char>)
    ensures
        quoted(s) matches Some((_, rest)) ==> rest.len() < s.len(),
    decreases s.len(),
{
    if s.len() > 0 && s[0] != '"' {
        if s[0] == '\\' {
            if s.len() >= 2 {
                lemma_quoted_len(s.skip(2));
            }
        } else {
            lemma_quoted_len(s.skip(1));
        }
    }
}

/// A token is never empty in the text: what is left of it is shorter.
pub proof fn lemma_token_len(s: Seq<char>)
    ensures
        token(s) matches Ok((_, rest)) ==> rest.len() < s.len(),
{
    let t = trim_start(s);
    lemma_trim_start_len(s);
    lemma_word_len(t);
    if t.len() > 0 {
        lemma_quoted_len(t.skip(1));
    }
}

proof fn lemma_word_len_step(s: Seq<char>, i: int)
    requires
        0 <= i <= s.len(),
        forall|k: int| 0 <= k < i ==> !is_space(#[trigger] s[k]),
    ensures
        word_len(s) == i + word_len(s.skip(i)),
    decreases i,
{
    if i > 0 {
        let t = s.skip(1);
        assert forall|k: int| 0 <= k < i - 1 implies !is_space(#[trigger] t[k]) by {
            assert(t[k] == s[k + 1]);
        }
        lemma_word_len_step(t, i - 1);
        assert(t.skip(i - 1) =~= s.skip(i));
        assert(!is_space(s[0]));
    } else {
        assert(s.skip(0) =~= s);
    }
}

/// Takes the first token of the input: a word, or a quoted text with escapes.
pub fn take_token(input: &[char]) -> (r: Result<(String, &[char]), String>)
    ensures
        match r {
            Ok((t, rest)) => token(input@) == Ok::<(Seq<char>, Seq<char>), Seq<char>>((t@, rest@)),
            Err(e) => token(input@) == Err::<(Seq<char>, Seq<char>), Seq<char>>(e@),
        },
{
    let t: &[char] = trimmed_start(input);
    if t.len() == 0 {
        return Err("ERROR missing_argument".to_string());
    }
    if t[0] == '"' {
        let ghost body = t@.skip(1);
        let mut buf: String = String::new();
        let mut escaped: bool = false;
        let mut i: usize = 1;
        assert(body.skip(0) =~= body);
        proof {
            lemma_append_nothing(quoted(body));
        }
        while i < t.len()
            invariant
                1 <= i <= t.len(),
                body == t@.skip(1),
                token(input@) == (match quoted(body) {
                    Some(r) => Ok::<(Seq<char>, Seq<char>), Seq<char>>(r),
                    None => Err("ERROR invalid_argument"@),
                }),
                quoted(body) == append_text(
                    buf@,
                    if escaped {
                        quoted(t@.skip(i - 1))
                    } else {
                        quoted(t@.skip(i as int))
                    },
                ),
                escaped ==> i > 1 && t@[i - 1] == '\\',
            decreases t.len() - i,
        {
            let c: char = t[i];
            if escaped {
                let plain: char = if c == 'n' {
                    '\n'
                } else if c == 'r' {
                    '\r'
                } else if c == 't' {
                    '\t'
                } else {
                    c
                };
                proof {
                    let here = t@.skip(i - 1);
                    assert(here[0] == '\\' && here[1] == c);
                    assert(here.skip(2) =~= t@.skip(i + 1));
                    lemma_append_push(buf@, unescape(c), quoted(t@.skip(i + 1)));
                }
                buf.push(plain);
                escaped = false;
            } else if c == '\\' {
                escaped = true;
            } else if c == '"' {
                proof {
                    let here = t@.skip(i as int);
                    assert(here[0] == '"');
                    assert(here.skip(1) =~= t@.skip(i + 1));
                    assert(buf@ + Seq::<char>::empty() =~= buf@);
                    assert(t@.skip(i + 1) =~= t@.subrange(i + 1, t@.len() as int));
                }
                return Ok((buf, slice_subrange(t, i + 1, t.len())));
            } else {
                proof {
                    let here = t@.skip(i as int);
                    assert(here[0] == c);
                    assert(here.skip(1) =~= t@.skip(i + 1));
                    lemma_append_push(buf@, c, quoted(t@.skip(i + 1)));
                }
                buf.push(c);
            }
            i = i + 1;
        }
        Err("ERROR invalid_argument".to_string())
    } else {
        let mut end: usize = 0;
        while end < t.len() && !is_whitespace(t[end])
            invariant
                end <= t.len(),
                forall|k: int| 0 <= k < end ==> !is_space(#[trigger] t@[k]),
            decreases t.len() - end,
        {
            end = end + 1;
        }
        proof {
            lemma_word_len_step(t@, end as int);
            assert(word_len(t@.skip(end as int)) == 0) by {
                if end < t.len() {
                    assert(t@.skip(end as int)[0] == t@[end as int]);
                }
            }
            assert(t@.subrange(0, end as int) =~= t@.take(end as int));
            assert(t@.subrange(end as int, t@.len() as int) =~= t@.skip(end as int));
        }
        let word: String = string_of(slice_subrange(t, 0, end));
        Ok((word, slice_subrange(t, end, t.len())))
    }
}

spec fn append_text(head: Seq<char>, r: Option<(Seq<char>, Seq<char>)>) -> Option<
    (Seq<char>, Seq<char>),
> {
    match r {
        Some((text, rest)) => Some((head + text, rest)),
        None => None,
    }
}

proof fn lemma_append_push(head: Seq<char>, c: char, r: Option<(Seq<char>, Seq<char>)>)
    ensures
        append_text(head, prepend(c, r)) == append_text(head.push(c), r),
{
    if let Some((text, rest)) = r {
        assert(head + (seq![c] + text) =~= head.push(c) + text);
    }
}

proof fn lemma_append_nothing(r: Option<(Seq<char>, Seq<char>)>)
    ensures
        append_text(Seq::empty(), r) == r,
{
    if let Some((text, rest)) = r {
        assert(Seq::<char>::empty() + text =~= text);
    }
}

/// Takes the first token of the input as a room identifier.
pub fn parse_room_id_from_remainder(remainder: &[char]) -> (r: Result<(u64, &[char]), String>)
    ensures
        match r {
            Ok((id, rest)) => room_id_token(remainder@) == Ok::<(u64, Seq<char>), Seq<char>>(
                (id, rest@),
            ),
            Err(e) => room_id_token(remainder@) == Err::<(u64, Seq<char>), Seq<char>>(e@),
        },
{
    match take_token(remainder) {
        Err(e) => Err(e),
        Ok((word, rest)) => {
            let chars: Vec<char> = chars_of(word.as_str());
            match parse_u64(chars.as_slice()) {
                Some(id) => Ok((id, rest)),
                None => Err("ERROR invalid_room_id".to_string()),
            }
        },
    }
}

/// Whether a text must be quoted to be one token.
pub open spec fn quoting_needed(s: Seq<char>) -> bool {
    s.len() == 0 || exists|i: int|
        0 <= i < s.len() && (is_space(#[trigger] s[i]) || s[i] == '"' || s[i] == '\\')
}

/// How one character is written inside quotes.
pub open spec fn escape_char(c: char) -> Seq<char> {
    if c == '\\' {
        seq!['\\', '\\']
    } else if c == '"' {
        seq!['\\', '"']
    } else if c == '\n' {
        seq!['\\', 'n']
    } else if c == '\r' {
        seq!['\\', 'r']
    } else if c == '\t' {
        seq!['\\', 't']
    } else {
        seq![c]
    }
}

/// How a text is written inside quotes.
pub open spec fn escape(s: Seq<char>) -> Seq<char>
    decreases s.len(),
{
    if s.len() == 0 {
        Seq::empty()
    } else {
        escape(s.drop_last()) + escape_char(s.last())
    }
}

/// How a text is written as one token.
pub open spec fn token_text(s: Seq<char>) -> Seq<char> {
    if quoting_needed(s) {
        seq!['"'] + escape(s) + seq!['"']
    } else {
        s
    }
}

pub fn needs_quote(s: &str) -> (r: bool)
    ensures
        r == quoting_needed(s@),
{
    let chars: Vec<char> = chars_of(s);
    if chars.len() == 0 {
        return true;
    }
    let mut i: usize = 0;
    while i < chars.len()
        invariant
            i <= chars.len(),
            chars@ == s@,
            forall|k: int|
                0 <= k < i ==> !is_space(#[trigger] s@[k]) && s@[k] != '"' && s@[k] != '\\',
        decreases chars.len() - i,
    {
        let c: char = chars[i];
        assert(c == s@[i as int]);
        if is_whitespace(c) || c == '"' || c == '\\' {
            return true;
        }
        i = i + 1;
    }
    false
}

pub fn escape_token(s: &str) -> (r: String)
    ensures
        r@ == escape(s@),
{
    let chars: Vec<char> = chars_of(s);
    let mut out: String = String::new();
    let mut i: usize = 0;
    while i < chars.len()
        invariant
            i <= chars.len(),
            chars@ == s@,
            out@ == escape(s@.take(i as int)),
        decreases chars.len() - i,
    {
        let c: char = chars[i];
        let ghost before = out@;
        if c == '\\' {
            out.push('\\');
            out.push('\\');
        } else if c == '"' {
            out.push('\\');
            out.push('"');
        } else if c == '\n' {
            out.push('\\');
            out.push('n');
        } else if c == '\r' {
            out.push('\\');
            out.push('r');
        } else if c == '\t' {
            out.push('\\');
            out.push('t');
        } else {
            out.push(c);
        }
        proof {
            let next = s@.take(i + 1);
            assert(next.drop_last() =~= s@.take(i as int));
            assert(next.last() == c);
            assert(out@ =~= before + escape_char(c));
        }
        i = i + 1;
    }
    assert(s@.take(i as int) =~= s@);
    out
}

pub fn format_token(s: &str) -> (r: String)
    ensures
        r@ == token_text(s@),
{
    if needs_quote(s) {
        let mut out: String = String::new();
        out.push('"');
        out.append(escape_token(s).as_str());
        out.push('"');
        assert(out@ =~= seq!['"'] + escape(s@) + seq!['"']);
        out
    } else {
        s.to_string()
    }
}

proof fn lemma_escape_front(s: Seq<char>)
    requires
        s.len() > 0,
    ensures
        escape(s) == escape_char(s[0]) + escape(s.skip(1)),
    decreases s.len(),
{
    let t = s.skip(1);
    if s.len() == 1 {
        assert(s.drop_last() =~= Seq::<char>::empty());
        assert(t =~= Seq::<char>::empty());
        assert(escape(s) =~= escape_char(s[0]) + escape(t));
    } else {
        lemma_escape_front(s.drop_last());
        assert(s.drop_last().skip(1) =~= t.drop_last());
        assert(escape(s) =~= escape_char(s[0]) + escape(t));
    }
}

proof fn lemma_quoted_escape(s: Seq<char>, rest: Seq<char>)
    ensures
        quoted(escape(s) + (seq!['"'] + rest)) == Some((s, rest)),
    decreases s.len(),
{
    let tail = seq!['"'] + rest;
    let text = escape(s) + tail;
    if s.len() == 0 {
        assert(text =~= tail);
        assert(tail.skip(1) =~= rest);
        assert(s =~= Seq::<char>::empty());
    } else {
        let c = s[0];
        let t = s.skip(1);
        lemma_escape_front(s);
        lemma_quoted_escape(t, rest);
        let n = escape_char(c).len() as int;
        assert(text =~= escape_char(c) + (escape(t) + tail));
        assert(text.skip(n) =~= escape(t) + tail);
        assert(seq![c] + t =~= s);
        assert(escape_char(c)[0] == text[0]);
        if n == 2 {
            assert(escape_char(c)[1] == text[1]);
        }
    }
}

/// Whether a text is empty or begins with white space: nothing that could belong
/// to a token before it.
pub open spec fn token_boundary(s: Seq<char>) -> bool {
    s.len() == 0 || is_space(s[0])
}

/// Formatting and taking a token are inverse: a formatted token is read back as
/// the text that it was made of, and what follows it is left over.
pub proof fn law_token_round_trip(s: Seq<char>, rest: Seq<char>)
    requires
        token_boundary(rest),
    ensures
        token(token_text(s) + rest) == Ok::<(Seq<char>, Seq<char>), Seq<char>>((s, rest)),
        token(seq![' '] + (token_text(s) + rest)) == Ok::<(Seq<char>, Seq<char>), Seq<char>>(
            (s, rest),
        ),
{
    let text = token_text(s) + rest;
    assert((seq![' '] + text).skip(1) =~= text);
    assert(trim_start(seq![' '] + text) == trim_start(text));
    if quoting_needed(s) {
        lemma_quoted_escape(s, rest);
        assert(text.skip(1) =~= escape(s) + (seq!['"'] + rest));
        assert(text[0] == '"');
        assert(trim_start(text) == text);
    } else {
        assert(text[0] == s[0]);
        assert(!is_space(s[0]));
        assert(trim_start(text) == text);
        assert forall|k: int| 0 <= k < s.len() implies !is_space(#[trigger] text[k]) by {
            assert(text[k] == s[k]);
        }
        lemma_word_len_step(text, s.len() as int);
        assert(text.skip(s.len() as int) =~= rest);
        assert(text.take(s.len() as int) =~= s);
    }
}

proof fn lemma_escape_single_line(s: Seq<char>)
    ensures
        forall|i: int|
            0 <= i < escape(s).len() ==> #[trigger] escape(s)[i] != '\n' && escape(s)[i] != '\r',
    decreases s.len(),
{
    if s.len() > 0 {
        lemma_escape_single_line(s.drop_last());
        let head = escape(s.drop_last());
        let last = escape_char(s.last());
        assert forall|i: int| 0 <= i < escape(s).len() implies #[trigger] escape(s)[i] != '\n'
            && escape(s)[i] != '\r' by {
            if i < head.len() {
                assert(escape(s)[i] == head[i]);
            } else {
                assert(escape(s)[i] == last[i - head.len()]);
            }
        }
    }
}

/// Whether a text stays on one line.
pub open spec fn single_line(s: Seq<char>) -> bool {
    forall|i: int| 0 <= i < s.len() ==> #[trigger] s[i] != '\n' && s[i] != '\r'
}

/// A formatted token stays on one line, whatever it holds.
pub proof fn law_token_single_line(s: Seq<char>)
    ensures
        single_line(token_text(s)),
{
    if quoting_needed(s) {
        lemma_escape_single_line(s);
        let text = token_text(s);
        assert forall|i: int| 0 <= i < text.len() implies #[trigger] text[i] != '\n' && text[i]
            != '\r' by {
            if 0 < i < text.len() - 1 {
                assert(text[i] == escape(s)[i - 1]);
            }
        }
    } else {
        assert forall|i: int| 0 <= i < s.len() implies #[trigger] s[i] != '\n' && s[i]
            != '\r' by {
            assert(!is_space(s[i]));
        }
    }
}

// ---------------------------------------------------------------------------
// Commands
// ---------------------------------------------------------------------------

/// The commands of the application.
#[derive(Debug, Clone, PartialEq)]
pub enum Command {
    RoomCreate,
    RoomDelete(u64),
    RoomList,
    RoomInfo(u64),
    RoomLabel(u64, String),
    RoomFind(String),
    SetValue { room_id: u64, container: String, key: String, value: Value },
    Del { room_id: u64, container: String, key: String },
    Get { room_id: u64, container: String, key: String },
    /// Server-only operations work on the reserved `server_only` container.
    ServerSet { room_id: u64, key: String, value: Value },
    ServerDel { room_id: u64, key: String },
    ServerGet { room_id: u64, key: String },
    Version(u64),
    SetJwtKey(String),
    TxBegin(u64),
    TxEnd(u64),
    TxAbort(u64),
    TokenGen { room_id: u64, containers: Vec<String> },
    Save { room_id: u64 },
    Load { room_id: u64 },
    PersistSet { room_id: u64, container: String, key: String },
    PersistUnset { room_id: u64, container: String, key: String },
    PersistGet { room_id: u64, container: String, key: String },
}

/// The word that a command begins with.
#[derive(Debug, Clone, Copy, PartialEq, Eq, Structural)]
pub enum Verb {
    RoomCreate,
    RoomDelete,
    RoomList,
    RoomInfo,
    RoomLabel,
    RoomFind,
    SetValue,
    Del,
    Get,
    ServerSet,
    ServerDel,
    ServerGet,
    Version,
    SetJwtKey,
    TxBegin,
    TxEnd,
    TxAbort,
    TokenGen,
    Save,
    Load,
    PersistSet,
    PersistUnset,
    PersistGet,
}

/// What may follow the fixed arguments of a command.
#[derive(Debug, Clone, Copy, PartialEq, Eq, Structural)]
pub enum Tail {
    Nothing,
    Json,
    Tokens,
}

/// A command as its parts: the verb, the room, the text arguments in order, and
/// the text of the JSON value.
#[verifier::ext_equal]
pub ghost struct CommandView {
    pub verb: Verb,
    pub room_id: Option<u64>,
    pub args: Seq<Seq<char>>,
    pub value: Option<Seq<char>>,
}

pub open spec fn command_parts(
    verb: Verb,
    room_id: Option<u64>,
    args: Seq<Seq<char>>,
    value: Option<Seq<char>>,
) -> CommandView {
    CommandView { verb, room_id, args, value }
}

impl View for Command {
    type V = CommandView;

    open spec fn view(&self) -> CommandView {
        match *self {
            Command::RoomCreate => command_parts(Verb::RoomCreate, None, seq![], None),
            Command::RoomDelete(id) => command_parts(Verb::RoomDelete, Some(id), seq![], None),
            Command::RoomList => command_parts(Verb::RoomList, None, seq![], None),
            Command::RoomInfo(id) => command_parts(Verb::RoomInfo, Some(id), seq![], None),
            Command::RoomLabel(id, label) => command_parts(
                Verb::RoomLabel,
                Some(id),
                seq![label@],
                None,
            ),
            Command::RoomFind(label) => command_parts(Verb::RoomFind, None, seq![label@], None),
            Command::SetValue { room_id, container, key, value } => command_parts(
                Verb::SetValue,
                Some(room_id),
                seq![container@, key@],
                Some(value@),
            ),
            Command::Del { room_id, container, key } => command_parts(
                Verb::Del,
                Some(room_id),
                seq![container@, key@],
                None,
            ),
            Command::Get { room_id, container, key } => command_parts(
                Verb::Get,
                Some(room_id),
                seq![container@, key@],
                None,
            ),
            Command::ServerSet { room_id, key, value } => command_parts(
                Verb::ServerSet,
                Some(room_id),
                seq![key@],
                Some(value@),
            ),
            Command::ServerDel { room_id, key } => command_parts(
                Verb::ServerDel,
                Some(room_id),
                seq![key@],
                None,
            ),
            Command::ServerGet { room_id, key } => command_parts(
                Verb::ServerGet,
                Some(room_id),
                seq![key@],
                None,
            ),
            Command::Version(id) => command_parts(Verb::Version, Some(id), seq![], None),
            Command::SetJwtKey(key) => command_parts(Verb::SetJwtKey, None, seq![key@], None),
            Command::TxBegin(id) => command_parts(Verb::TxBegin, Some(id), seq![], None),
            Command::TxEnd(id) => command_parts(Verb::TxEnd, Some(id), seq![], None),
            Command::TxAbort(id) => command_parts(Verb::TxAbort, Some(id), seq![], None),
            Command::TokenGen { room_id, containers } => command_parts(
                Verb::TokenGen,
                Some(room_id),
                texts(containers@),
                None,
            ),
            Command::Save { room_id } => command_parts(Verb::Save, Some(room_id), seq![], None),
            Command::Load { room_id } => command_parts(Verb::Load, Some(room_id), seq![], None),
            Command::PersistSet { room_id, container, key } => command_parts(
                Verb::PersistSet,
                Some(room_id),
                seq![container@, key@],
                None,
            ),
            Command::PersistUnset { room_id, container, key } => command_parts(
                Verb::PersistUnset,
                Some(room_id),
                seq![container@, key@],
                None,
            ),
            Command::PersistGet { room_id, container, key } => command_parts(
                Verb::PersistGet,
                Some(room_id),
                seq![container@, key@],
                None,
            ),
        }
    }
}

pub open spec fn verb_name(verb: Verb) -> Seq<char> {
    match verb {
        Verb::RoomCreate => "ROOM.CREATE"@,
        Verb::RoomDelete => "ROOM.DELETE"@,
        Verb::RoomList => "ROOM.LIST"@,
        Verb::RoomInfo => "ROOM.INFO"@,
        Verb::RoomLabel => "ROOM.LABEL"@,
        Verb::RoomFind => "ROOM.FIND"@,
        Verb::SetValue => "SET"@,
        Verb::Del => "DEL"@,
        Verb::Get => "GET"@,
        Verb::ServerSet => "SERVER.SET"@,
        Verb::ServerDel => "SERVER.DEL"@,
        Verb::ServerGet => "SERVER.GET"@,
        Verb::Version => "VERSION"@,
        Verb::SetJwtKey => "SET.JWTKEY"@,
        Verb::TxBegin => "TX.BEGIN"@,
        Verb::TxEnd => "TX.END"@,
        Verb::TxAbort => "TX.ABORT"@,
        Verb::TokenGen => "TOKEN.GEN"@,
        Verb::Save => "SAVE"@,
        Verb::Load => "LOAD"@,
        Verb::PersistSet => "PERSIST.SET"@,
        Verb::PersistUnset => "PERSIST.UNSET"@,
        Verb::PersistGet => "PERSIST.GET"@,
    }
}

pub open spec fn verb_named(name: Seq<char>) -> Option<Verb> {
    if name == "ROOM.CREATE"@ {
        Some(Verb::RoomCreate)
    } else if name == "ROOM.DELETE"@ {
        Some(Verb::RoomDelete)
    } else if name == "ROOM.LIST"@ {
        Some(Verb::RoomList)
    } else if name == "ROOM.INFO"@ {
        Some(Verb::RoomInfo)
    } else if name == "ROOM.LABEL"@ {
        Some(Verb::RoomLabel)
    } else if name == "ROOM.FIND"@ {
        Some(Verb::RoomFind)
    } else if name == "SET"@ {
        Some(Verb::SetValue)
    } else if name == "DEL"@ {
        Some(Verb::Del)
    } else if name == "GET"@ {
        Some(Verb::Get)
    } else if name == "SERVER.SET"@ {
        Some(Verb::ServerSet)
    } else if name == "SERVER.DEL"@ {
        Some(Verb::ServerDel)
    } else if name == "SERVER.GET"@ {
        Some(Verb::ServerGet)
    } else if name == "VERSION"@ {
        Some(Verb::Version)
    } else if name == "SET.JWTKEY"@ {
        Some(Verb::SetJwtKey)
    } else if name == "TX.BEGIN"@ {
        Some(Verb::TxBegin)
    } else if name == "TX.END"@ {
        Some(Verb::TxEnd)
    } else if name == "TX.ABORT"@ {
        Some(Verb::TxAbort)
    } else if name == "TOKEN.GEN"@ {
        Some(Verb::TokenGen)
    } else if name == "SAVE"@ {
        Some(Verb::Save)
    } else if name == "LOAD"@ {
        Some(Verb::Load)
    } else if name == "PERSIST.SET"@ {
        Some(Verb::PersistSet)
    } else if name == "PERSIST.UNSET"@ {
        Some(Verb::PersistUnset)
    } else if name == "PERSIST.GET"@ {
        Some(Verb::PersistGet)
    } else {
        None
    }
}

/// Whether the command names a room.
pub open spec fn has_room(verb: Verb) -> bool {
    !(verb is RoomCreate || verb is RoomList || verb is RoomFind || verb is SetJwtKey)
}

/// The number of fixed text arguments.
pub open spec fn arg_count(verb: Verb) -> nat {
    match verb {
        Verb::RoomLabel | Verb::RoomFind | Verb::SetJwtKey => 1,
        Verb::ServerSet | Verb::ServerDel | Verb::ServerGet => 1,
        Verb::SetValue | Verb::Del | Verb::Get => 2,
        Verb::PersistSet | Verb::PersistUnset | Verb::PersistGet => 2,
        _ => 0,
    }
}

pub open spec fn tail_of(verb: Verb) -> Tail {
    match verb {
        Verb::SetValue | Verb::ServerSet => Tail::Json,
        Verb::TokenGen => Tail::Tokens,
        _ => Tail::Nothing,
    }
}

impl CommandView {
    /// Whether the parts fit the verb.
    pub open spec fn shaped(self) -> bool {
        &&& has_room(self.verb) == (self.room_id is Some)
        &&& (tail_of(self.verb) is Json) == (self.value is Some)
        &&& !(tail_of(self.verb) is Tokens) ==> self.args.len() == arg_count(self.verb)
    }
}

/// The parts of every command fit its verb.
pub proof fn law_command_shaped(command: Command)
    ensures
        command@.shaped(),
{
}

pub open spec fn with_token(
    t: Seq<char>,
    r: Result<(Seq<Seq<char>>, Seq<char>), Seq<char>>,
) -> Result<(Seq<Seq<char>>, Seq<char>), Seq<char>> {
    match r {
        Ok((ts, rest)) => Ok((seq![t] + ts, rest)),
        Err(e) => Err(e),
    }
}

/// The first `n` tokens of a text and the text behind them.
pub open spec fn tokens(n: nat, s: Seq<char>) -> Result<(Seq<Seq<char>>, Seq<char>), Seq<char>>
    decreases n,
{
    if n == 0 {
        Ok((Seq::empty(), s))
    } else {
        match token(s) {
            Err(e) => Err(e),
            Ok((t, rest)) => with_token(t, tokens((n - 1) as nat, rest)),
        }
    }
}

/// All tokens of a text.
pub open spec fn all_tokens(s: Seq<char>) -> Result<(Seq<Seq<char>>, Seq<char>), Seq<char>>
    decreases s.len(),
{
    if trim(s).len() == 0 {
        Ok((Seq::empty(), s))
    } else {
        match token(s) {
            Err(e) => Err(e),
            Ok((t, rest)) => {
                proof {
                    lemma_token_len(s);
                }
                with_token(t, all_tokens(rest))
            },
        }
    }
}

/// What follows the fixed arguments, and the command that comes of it.
pub open spec fn finish_command(
    verb: Verb,
    room_id: Option<u64>,
    args: Seq<Seq<char>>,
    rest: Seq<char>,
) -> Result<CommandView, Seq<char>> {
    match tail_of(verb) {
        Tail::Nothing => if trim(rest).len() > 0 {
            Err("ERROR extra_arguments"@)
        } else {
            Ok(command_parts(verb, room_id, args, None))
        },
        Tail::Json => if trim_start(rest).len() == 0 {
            Err("ERROR missing_value"@)
        } else {
            match json_text(trim_start(rest)) {
                Ok(value) => Ok(command_parts(verb, room_id, args, Some(value))),
                Err(e) => Err("ERROR invalid_json "@ + e),
            }
        },
        Tail::Tokens => match all_tokens(rest) {
            Ok((more, _)) => Ok(command_parts(verb, room_id, args + more, None)),
            Err(e) => Err(e),
        },
    }
}

/// The arguments of a command, read from the text behind the room.
pub open spec fn read_arguments(verb: Verb, room_id: Option<u64>, s: Seq<char>) -> Result<
    CommandView,
    Seq<char>,
> {
    match tokens(arg_count(verb), s) {
        Err(e) => Err(e),
        Ok((args, rest)) => if verb is RoomLabel && trim(args[0]).len() == 0 {
            Err("ERROR label_invalid"@)
        } else {
            finish_command(verb, room_id, args, rest)
        },
    }
}

/// The command that a line stands for, or the error that answers it.
pub open spec fn read_command(line: Seq<char>) -> Result<CommandView, Seq<char>> {
    match token(line) {
        Err(e) => Err(e),
        Ok((name, rest)) => match verb_named(name) {
            None => Err("ERROR unknown_command"@),
            Some(verb) => if has_room(verb) {
                match room_id_token(rest) {
                    Err(e) => Err(e),
                    Ok((id, rest)) => read_arguments(verb, Some(id), rest),
                }
            } else {
                read_arguments(verb, None, rest)
            },
        },
    }
}

fn parse_verb(name: &str) -> (r: Option<Verb>)
    ensures
        r == verb_named(name@),
{
    if same(name, "ROOM.CREATE") {
        Some(Verb::RoomCreate)
    } else if same(name, "ROOM.DELETE") {
        Some(Verb::RoomDelete)
    } else if same(name, "ROOM.LIST") {
        Some(Verb::RoomList)
    } else if same(name, "ROOM.INFO") {
        Some(Verb::RoomInfo)
    } else if same(name, "ROOM.LABEL") {
        Some(Verb::RoomLabel)
    } else if same(name, "ROOM.FIND") {
        Some(Verb::RoomFind)
    } else if same(name, "SET") {
        Some(Verb::SetValue)
    } else if same(name, "DEL") {
        Some(Verb::Del)
    } else if same(name, "GET") {
        Some(Verb::Get)
    } else if same(name, "SERVER.SET") {
        Some(Verb::ServerSet)
    } else if same(name, "SERVER.DEL") {
        Some(Verb::ServerDel)
    } else if same(name, "SERVER.GET") {
        Some(Verb::ServerGet)
    } else if same(name, "VERSION") {
        Some(Verb::Version)
    } else if same(name, "SET.JWTKEY") {
        Some(Verb::SetJwtKey)
    } else if same(name, "TX.BEGIN") {
        Some(Verb::TxBegin)
    } else if same(name, "TX.END") {
        Some(Verb::TxEnd)
    } else if same(name, "TX.ABORT") {
        Some(Verb::TxAbort)
    } else if same(name, "TOKEN.GEN") {
        Some(Verb::TokenGen)
    } else if same(name, "SAVE") {
        Some(Verb::Save)
    } else if same(name, "LOAD") {
        Some(Verb::Load)
    } else if same(name, "PERSIST.SET") {
        Some(Verb::PersistSet)
    } else if same(name, "PERSIST.UNSET") {
        Some(Verb::PersistUnset)
    } else if same(name, "PERSIST.GET") {
        Some(Verb::PersistGet)
    } else {
        None
    }
}

fn verb_text(verb: Verb) -> (r: &'static str)
    ensures
        r@ == verb_name(verb),
{
    match verb {
        Verb::RoomCreate => "ROOM.CREATE",
        Verb::RoomDelete => "ROOM.DELETE",
        Verb::RoomList => "ROOM.LIST",
        Verb::RoomInfo => "ROOM.INFO",
        Verb::RoomLabel => "ROOM.LABEL",
        Verb::RoomFind => "ROOM.FIND",
        Verb::SetValue => "SET",
        Verb::Del => "DEL",
        Verb::Get => "GET",
        Verb::ServerSet => "SERVER.SET",
        Verb::ServerDel => "SERVER.DEL",
        Verb::ServerGet => "SERVER.GET",
        Verb::Version => "VERSION",
        Verb::SetJwtKey => "SET.JWTKEY",
        Verb::TxBegin => "TX.BEGIN",
        Verb::TxEnd => "TX.END",
        Verb::TxAbort => "TX.ABORT",
        Verb::TokenGen => "TOKEN.GEN",
        Verb::Save => "SAVE",
        Verb::Load => "LOAD",
        Verb::PersistSet => "PERSIST.SET",
        Verb::PersistUnset => "PERSIST.UNSET",
        Verb::PersistGet => "PERSIST.GET",
    }
}

fn names_room(verb: Verb) -> (r: bool)
    ensures
        r == has_room(verb),
{
    match verb {
        Verb::RoomCreate | Verb::RoomList | Verb::RoomFind | Verb::SetJwtKey => false,
        _ => true,
    }
}

fn count_arguments(verb: Verb) -> (r: usize)
    ensures
        r == arg_count(verb),
{
    match verb {
        Verb::RoomLabel | Verb::RoomFind | Verb::SetJwtKey => 1,
        Verb::ServerSet | Verb::ServerDel | Verb::ServerGet => 1,
        Verb::SetValue | Verb::Del | Verb::Get => 2,
        Verb::PersistSet | Verb::PersistUnset | Verb::PersistGet => 2,
        _ => 0,
    }
}

fn tail_kind(verb: Verb) -> (r: Tail)
    ensures
        r == tail_of(verb),
{
    match verb {
        Verb::SetValue | Verb::ServerSet => Tail::Json,
        Verb::TokenGen => Tail::Tokens,
        _ => Tail::Nothing,
    }
}

spec fn after_tokens(
    head: Seq<Seq<char>>,
    r: Result<(Seq<Seq<char>>, Seq<char>), Seq<char>>,
) -> Result<(Seq<Seq<char>>, Seq<char>), Seq<char>> {
    match r {
        Ok((ts, rest)) => Ok((head + ts, rest)),
        Err(e) => Err(e),
    }
}

proof fn lemma_after_tokens_push(
    head: Seq<String>,
    t: String,
    r: Result<(Seq<Seq<char>>, Seq<char>), Seq<char>>,
)
    ensures
        after_tokens(texts(head), with_token(t@, r)) == after_tokens(texts(head.push(t)), r),
{
    if let Ok((ts, rest)) = r {
        assert(texts(head) + (seq![t@] + ts) =~= texts(head.push(t)) + ts);
    }
}

/// Takes a fixed number of tokens.
fn take_tokens(n: usize, input: &[char]) -> (r: Result<(Vec<String>, &[char]), String>)
    ensures
        match r {
            Ok((ts, rest)) => tokens(n as nat, input@) == Ok::<
                (Seq<Seq<char>>, Seq<char>),
                Seq<char>,
            >((texts(ts@), rest@)),
            Err(e) => tokens(n as nat, input@) == Err::<(Seq<Seq<char>>, Seq<char>), Seq<char>>(e@),
        },
{
    let mut out: Vec<String> = Vec::new();
    let mut rest: &[char] = input;
    let mut i: usize = 0;
    assert(after_tokens(texts(out@), tokens(n as nat, input@)) == tokens(n as nat, input@)) by {
        if let Ok((ts, r)) = tokens(n as nat, input@) {
            assert(texts(out@) + ts =~= ts);
        }
    }
    while i < n
        invariant
            i <= n,
            tokens(n as nat, input@) == after_tokens(texts(out@), tokens((n - i) as nat, rest@)),
        decreases n - i,
    {
        match take_token(rest) {
            Err(e) => {
                return Err(e);
            },
            Ok((word, next)) => {
                proof {
                    lemma_after_tokens_push(out@, word, tokens((n - i - 1) as nat, next@));
                }
                out.push(word);
                rest = next;
            },
        }
        i = i + 1;
    }
    assert(texts(out@) + Seq::<Seq<char>>::empty() =~= texts(out@));
    Ok((out, rest))
}

/// Takes all tokens of the input.
fn take_all_tokens(input: &[char]) -> (r: Result<Vec<String>, String>)
    ensures
        match r {
            Ok(ts) => all_tokens(input@) matches Ok((all, _)) && all == texts(ts@),
            Err(e) => all_tokens(input@) matches Err(e2) && e2 == e@,
        },
{
    let mut out: Vec<String> = Vec::new();
    let mut rest: &[char] = input;
    assert(after_tokens(texts(out@), all_tokens(input@)) == all_tokens(input@)) by {
        if let Ok((ts, r)) = all_tokens(input@) {
            assert(texts(out@) + ts =~= ts);
        }
    }
    while trimmed(rest).len() > 0
        invariant
            all_tokens(input@) == after_tokens(texts(out@), all_tokens(rest@)),
        decreases rest.len(),
    {
        proof {
            lemma_token_len(rest@);
        }
        match take_token(rest) {
            Err(e) => {
                return Err(e);
            },
            Ok((word, next)) => {
                proof {
                    lemma_after_tokens_push(out@, word, all_tokens(next@));
                }
                out.push(word);
                rest = next;
            },
        }
    }
    assert(texts(out@) + Seq::<Seq<char>>::empty() =~= texts(out@));
    Ok(out)
}

proof fn lemma_tokens_count(n: nat, s: Seq<char>)
    ensures
        tokens(n, s) matches Ok((ts, _)) ==> ts.len() == n,
    decreases n,
{
    if n > 0 {
        if let Ok((t, rest)) = token(s) {
            lemma_tokens_count((n - 1) as nat, rest);
        }
    }
}

/// Puts a command together from parts that fit its verb.
fn make_command(verb: Verb, room_id: u64, args: Vec<String>, value: Value) -> (r: Command)
    requires
        !(tail_of(verb) is Tokens) ==> args@.len() == arg_count(verb),
    ensures
        r@ == command_parts(
            verb,
            if has_room(verb) {
                Some(room_id)
            } else {
                None
            },
            texts(args@),
            if tail_of(verb) is Json {
                Some(value@)
            } else {
                None
            },
        ),
{
    let ghost all = texts(args@);
    let mut args: Vec<String> = args;
    let r: Command = match verb {
        Verb::RoomCreate => Command::RoomCreate,
        Verb::RoomDelete => Command::RoomDelete(room_id),
        Verb::RoomList => Command::RoomList,
        Verb::RoomInfo => Command::RoomInfo(room_id),
        Verb::RoomLabel => Command::RoomLabel(room_id, args.pop().unwrap()),
        Verb::RoomFind => Command::RoomFind(args.pop().unwrap()),
        Verb::SetValue => {
            let key: String = args.pop().unwrap();
            let container: String = args.pop().unwrap();
            Command::SetValue { room_id, container, key, value }
        },
        Verb::Del => {
            let key: String = args.pop().unwrap();
            let container: String = args.pop().unwrap();
            Command::Del { room_id, container, key }
        },
        Verb::Get => {
            let key: String = args.pop().unwrap();
            let container: String = args.pop().unwrap();
            Command::Get { room_id, container, key }
        },
        Verb::ServerSet => Command::ServerSet { room_id, key: args.pop().unwrap(), value },
        Verb::ServerDel => Command::ServerDel { room_id, key: args.pop().unwrap() },
        Verb::ServerGet => Command::ServerGet { room_id, key: args.pop().unwrap() },
        Verb::Version => Command::Version(room_id),
        Verb::SetJwtKey => Command::SetJwtKey(args.pop().unwrap()),
        Verb::TxBegin => Command::TxBegin(room_id),
        Verb::TxEnd => Command::TxEnd(room_id),
        Verb::TxAbort => Command::TxAbort(room_id),
        Verb::TokenGen => Command::TokenGen { room_id, containers: args },
        Verb::Save => Command::Save { room_id },
        Verb::Load => Command::Load { room_id },
        Verb::PersistSet => {
            let key: String = args.pop().unwrap();
            let container: String = args.pop().unwrap();
            Command::PersistSet { room_id, container, key }
        },
        Verb::PersistUnset => {
            let key: String = args.pop().unwrap();
            let container: String = args.pop().unwrap();
            Command::PersistUnset { room_id, container, key }
        },
        Verb::PersistGet => {
            let key: String = args.pop().unwrap();
            let container: String = args.pop().unwrap();
            Command::PersistGet { room_id, container, key }
        },
    };
    assert(r@.args =~= all);
    r
}

/// What a parse came to, as its mathematical model.
pub open spec fn command_result(r: Result<Command, String>) -> Result<CommandView, Seq<char>> {
    match r {
        Ok(c) => Ok(c@),
        Err(e) => Err(e@),
    }
}

/// Completes a command that carries a JSON value with what the JSON parser made of
/// the rest of the line.
pub fn with_value(
    verb: Verb,
    room_id: u64,
    args: Vec<String>,
    value: Result<Value, String>,
) -> (r: Result<Command, String>)
    requires
        tail_of(verb) is Json,
        args@.len() == arg_count(verb),
    ensures
        command_result(r) == (match value {
            Ok(v) => Ok::<CommandView, Seq<char>>(
                command_parts(verb, Some(room_id), texts(args@), Some(v@)),
            ),
            Err(e) => Err("ERROR invalid_json "@ + e@),
        }),
{
    match value {
        Ok(value) => Ok(make_command(verb, room_id, args, value)),
        Err(e) => {
            let mut message: String = "ERROR invalid_json ".to_string();
            message.append(e.as_str());
            Err(message)
        },
    }
}

/// Parses an incoming command line. Errors are server-style texts such as
/// `ERROR missing_argument`.
pub fn parse_command(line: &str) -> (r: Result<Command, String>)
    ensures
        command_result(r) == read_command(line@),
{
    let chars: Vec<char> = chars_of(line);
    let (name, rest): (String, &[char]) = match take_token(chars.as_slice()) {
        Err(e) => {
            return Err(e);
        },
        Ok(found) => found,
    };
    let verb: Verb = match parse_verb(name.as_str()) {
        None => {
            return Err("ERROR unknown_command".to_string());
        },
        Some(verb) => verb,
    };
    let mut room_id: u64 = 0;
    let mut rest: &[char] = rest;
    if names_room(verb) {
        match parse_room_id_from_remainder(rest) {
            Err(e) => {
                return Err(e);
            },
            Ok((id, behind)) => {
                room_id = id;
                rest = behind;
            },
        }
    }
    let ghost room = if has_room(verb) {
        Some(room_id)
    } else {
        None
    };
    assert(read_command(line@) == read_arguments(verb, room, rest@));
    let ghost behind_room = rest@;
    let (args, rest): (Vec<String>, &[char]) = match take_tokens(count_arguments(verb), rest) {
        Err(e) => {
            return Err(e);
        },
        Ok(found) => found,
    };
    proof {
        lemma_tokens_count(arg_count(verb), behind_room);
        assert(texts(args@).len() == args@.len());
    }
    match verb {
        Verb::RoomLabel => {
            assert(texts(args@)[0] == args@[0]@);
            let label: Vec<char> = chars_of(args[0].as_str());
            if trimmed(label.as_slice()).len() == 0 {
                return Err("ERROR label_invalid".to_string());
            }
        },
        _ => {},
    }
    match tail_kind(verb) {
        Tail::Nothing => {
            if trimmed(rest).len() > 0 {
                return Err("ERROR extra_arguments".to_string());
            }
            Ok(make_command(verb, room_id, args, Value::null()))
        },
        Tail::Json => {
            let json: &[char] = trimmed_start(rest);
            if json.len() == 0 {
                return Err("ERROR missing_value".to_string());
            }
            let value: Result<Value, String> = Value::parse(string_of(json).as_str());
            with_value(verb, room_id, args, value)
        },
        Tail::Tokens => {
            match take_all_tokens(rest) {
                Err(e) => Err(e),
                Ok(containers) => {
                    assert(texts(args@) + texts(containers@) =~= texts(containers@));
                    Ok(make_command(verb, room_id, containers, Value::null()))
                },
            }
        },
    }
}

/// The arguments of a command as they are written behind its room.
pub open spec fn args_text(args: Seq<Seq<char>>) -> Seq<char>
    decreases args.len(),
{
    if args.len() == 0 {
        Seq::empty()
    } else {
        args_text(args.drop_last()) + (seq![' '] + token_text(args.last()))
    }
}

pub open spec fn room_text(room_id: Option<u64>) -> Seq<char> {
    match room_id {
        Some(id) => seq![' '] + decimal(id as nat),
        None => Seq::empty(),
    }
}

pub open spec fn value_text(value: Option<Seq<char>>) -> Seq<char> {
    match value {
        Some(v) => seq![' '] + v,
        None => Seq::empty(),
    }
}

/// The line that a command is written as.
pub open spec fn command_line(c: CommandView) -> Seq<char> {
    verb_name(c.verb) + room_text(c.room_id) + args_text(c.args) + value_text(c.value)
}

fn push_room(out: &mut String, room_id: u64)
    ensures
        final(out)@ == old(out)@ + room_text(Some(room_id)),
{
    out.push(' ');
    push_decimal(out, room_id);
    assert(out@ =~= old(out)@ + room_text(Some(room_id)));
}

fn push_token(out: &mut String, text: &str)
    ensures
        final(out)@ == old(out)@ + (seq![' '] + token_text(text@)),
{
    out.push(' ');
    let t: String = format_token(text);
    out.append(t.as_str());
    assert(out@ =~= old(out)@ + (seq![' '] + token_text(text@)));
}

fn push_value(out: &mut String, value: &Value)
    ensures
        final(out)@ == old(out)@ + value_text(Some(value@)),
        is_written(value@),
{
    out.push(' ');
    out.append(value.text());
    assert(out@ =~= old(out)@ + value_text(Some(value@)));
}

proof fn lemma_args_text_one(a: Seq<char>)
    ensures
        args_text(seq![a]) == seq![' '] + token_text(a),
        args_text(Seq::empty()) == Seq::<char>::empty(),
{
    let args = seq![a];
    assert(args.drop_last() =~= Seq::<Seq<char>>::empty());
    assert(args_text(args.drop_last()) =~= Seq::<char>::empty());
    assert(args_text(args) =~= seq![' '] + token_text(a));
}

proof fn lemma_args_text_two(a: Seq<char>, b: Seq<char>)
    ensures
        args_text(seq![a, b]) == (seq![' '] + token_text(a)) + (seq![' '] + token_text(b)),
{
    lemma_args_text_one(a);
    assert(seq![a, b].drop_last() =~= seq![a]);
}

/// Whether a command is read back from the line that is written for it: a label must not be
/// blank, and a value must not hold a floating-point number, of which the last digit may
/// change.
pub open spec fn reads_back(c: CommandView) -> bool {
    &&& c.verb is RoomLabel ==> trim(c.args[0]).len() > 0
    &&& c.value matches Some(v) ==> !holds_float(v, false)
}

/// Writes a command as a single line, from which the command is read back.
pub fn format_command(cmd: &Command) -> (r: String)
    ensures
        r@ == command_line(cmd@),
        single_line(r@),
        reads_back(cmd@) ==> read_command(r@) == Ok::<CommandView, Seq<char>>(cmd@),
{
    let verb: Verb = command_verb(cmd);
    let mut out: String = verb_text(verb).to_string();
    match cmd {
        Command::RoomCreate | Command::RoomList => {},
        Command::RoomDelete(id)
        | Command::RoomInfo(id)
        | Command::Version(id)
        | Command::TxBegin(id)
        | Command::TxEnd(id)
        | Command::TxAbort(id) => {
            push_room(&mut out, *id);
        },
        Command::Save { room_id } | Command::Load { room_id } => {
            push_room(&mut out, *room_id);
        },
        Command::RoomLabel(id, label) => {
            push_room(&mut out, *id);
            push_token(&mut out, label.as_str());
            proof {
                lemma_args_text_one(label@);
            }
        },
        Command::RoomFind(text) | Command::SetJwtKey(text) => {
            push_token(&mut out, text.as_str());
            proof {
                lemma_args_text_one(text@);
            }
        },
        Command::SetValue { room_id, container, key, value } => {
            push_room(&mut out, *room_id);
            push_token(&mut out, container.as_str());
            push_token(&mut out, key.as_str());
            push_value(&mut out, value);
            proof {
                lemma_args_text_two(container@, key@);
            }
        },
        Command::Del { room_id, container, key }
        | Command::Get { room_id, container, key }
        | Command::PersistSet { room_id, container, key }
        | Command::PersistUnset { room_id, container, key }
        | Command::PersistGet { room_id, container, key } => {
            push_room(&mut out, *room_id);
            push_token(&mut out, container.as_str());
            push_token(&mut out, key.as_str());
            proof {
                lemma_args_text_two(container@, key@);
            }
        },
        Command::ServerSet { room_id, key, value } => {
            push_room(&mut out, *room_id);
            push_token(&mut out, key.as_str());
            push_value(&mut out, value);
            proof {
                lemma_args_text_one(key@);
            }
        },
        Command::ServerDel { room_id, key } | Command::ServerGet { room_id, key } => {
            push_room(&mut out, *room_id);
            push_token(&mut out, key.as_str());
            proof {
                lemma_args_text_one(key@);
            }
        },
        Command::TokenGen { room_id, containers } => {
            push_room(&mut out, *room_id);
            let ghost head = out@;
            let mut i: usize = 0;
            assert(texts(containers@).take(0) =~= Seq::<Seq<char>>::empty());
            assert(head + Seq::<char>::empty() =~= head);
            while i < containers.len()
                invariant
                    i <= containers.len(),
                    out@ == head + args_text(texts(containers@).take(i as int)),
                decreases containers.len() - i,
            {
                push_token(&mut out, containers[i].as_str());
                proof {
                    let next = texts(containers@).take(i + 1);
                    assert(next.drop_last() =~= texts(containers@).take(i as int));
                    assert(next.last() == containers@[i as int]@);
                    assert(out@ =~= head + args_text(next));
                }
                i = i + 1;
            }
            assert(texts(containers@).take(i as int) =~= texts(containers@));
        },
    }
    assert(out@ =~= command_line(cmd@));
    proof {
        law_command_shaped(*cmd);
        law_command_single_line(cmd@);
        if reads_back(cmd@) {
            law_command_round_trip(cmd@);
        }
    }
    out
}

fn command_verb(cmd: &Command) -> (r: Verb)
    ensures
        r == cmd@.verb,
{
    match cmd {
        Command::RoomCreate => Verb::RoomCreate,
        Command::RoomDelete(_) => Verb::RoomDelete,
        Command::RoomList => Verb::RoomList,
        Command::RoomInfo(_) => Verb::RoomInfo,
        Command::RoomLabel(_, _) => Verb::RoomLabel,
        Command::RoomFind(_) => Verb::RoomFind,
        Command::SetValue { .. } => Verb::SetValue,
        Command::Del { .. } => Verb::Del,
        Command::Get { .. } => Verb::Get,
        Command::ServerSet { .. } => Verb::ServerSet,
        Command::ServerDel { .. } => Verb::ServerDel,
        Command::ServerGet { .. } => Verb::ServerGet,
        Command::Version(_) => Verb::Version,
        Command::SetJwtKey(_) => Verb::SetJwtKey,
        Command::TxBegin(_) => Verb::TxBegin,
        Command::TxEnd(_) => Verb::TxEnd,
        Command::TxAbort(_) => Verb::TxAbort,
        Command::TokenGen { .. } => Verb::TokenGen,
        Command::Save { .. } => Verb::Save,
        Command::Load { .. } => Verb::Load,
        Command::PersistSet { .. } => Verb::PersistSet,
        Command::PersistUnset { .. } => Verb::PersistUnset,
        Command::PersistGet { .. } => Verb::PersistGet,
    }
}

// ---------------------------------------------------------------------------
// Responses
// ---------------------------------------------------------------------------

/// A response of the server. `Success` may hold a payload.
#[derive(Debug, Clone, PartialEq)]
pub enum Response {
    Success(Option<String>),
    Error(String),
}

pub ghost enum ResponseView {
    Success(Option<Seq<char>>),
    Error(Seq<char>),
}

impl View for Response {
    type V = ResponseView;

    open spec fn view(&self) -> ResponseView {
        match *self {
            Response::Success(None) => ResponseView::Success(None),
            Response::Success(Some(p)) => ResponseView::Success(Some(p@)),
            Response::Error(m) => ResponseView::Error(m@),
        }
    }
}

/// The response that a line stands for.
pub open spec fn read_response(line: Seq<char>) -> Option<ResponseView> {
    let s = trim(line);
    if starts_with(s, "OK"@) {
        let rest = trim_start(s.skip(2));
        if rest.len() == 0 {
            Some(ResponseView::Success(None))
        } else {
            Some(ResponseView::Success(Some(rest)))
        }
    } else if starts_with(s, "ERROR"@) {
        Some(ResponseView::Error(trim_start(s.skip(5))))
    } else {
        None
    }
}

/// Parses a response line of the server.
pub fn parse_response(line: &str) -> (r: Result<Response, String>)
    ensures
        match r {
            Ok(response) => read_response(line@) == Some(response@),
            Err(e) => read_response(line@) is None && e@ == "ERROR invalid_response"@,
        },
{
    let chars: Vec<char> = chars_of(line);
    let s: &[char] = trimmed(chars.as_slice());
    proof {
        reveal_strlit("OK");
        reveal_strlit("ERROR");
    }
    if has_prefix(s, "OK") {
        let tail: &[char] = slice_subrange(s, 2, s.len());
        assert(tail@ =~= s@.skip(2));
        let rest: &[char] = trimmed_start(tail);
        if rest.len() == 0 {
            Ok(Response::Success(None))
        } else {
            Ok(Response::Success(Some(string_of(rest))))
        }
    } else if has_prefix(s, "ERROR") {
        let tail: &[char] = slice_subrange(s, 5, s.len());
        assert(tail@ =~= s@.skip(5));
        Ok(Response::Error(string_of(trimmed_start(tail))))
    } else {
        Err("ERROR invalid_response".to_string())
    }
}

/// The line that a response is written as.
pub open spec fn response_line(r: ResponseView) -> Seq<char> {
    match r {
        ResponseView::Success(None) => "OK"@,
        ResponseView::Success(Some(p)) => "OK "@ + p,
        ResponseView::Error(m) => "ERROR "@ + m,
    }
}

/// Writes a response as a line.
pub fn format_response(resp: &Response) -> (r: String)
    ensures
        r@ == response_line(resp@),
{
    match resp {
        Response::Success(None) => "OK".to_string(),
        Response::Success(Some(payload)) => {
            let mut out: String = "OK ".to_string();
            out.append(payload.as_str());
            out
        },
        Response::Error(message) => {
            let mut out: String = "ERROR ".to_string();
            out.append(message.as_str());
            out
        },
    }
}

} // verus!
