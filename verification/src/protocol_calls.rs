//! What both ends of the line protocol can rely on: which lines stand for which commands and
//! responses.

use crate::collections::texts;
use crate::json::json_text;
use crate::protocol::{
    all_tokens, arg_count, args_text, escape, escape_char, escape_token, format_command,
    format_response, format_token, has_room, needs_quote, parse_command, parse_response,
    parse_room_id_from_remainder, quoted, quoting_needed, read_command, tail_of, take_token, token,
    token_text, tokens, verb_named, word_len, Command, CommandView, Response, Tail, Verb,
};
use crate::text::{decimal, is_space, trim, trim_end, trim_start, u64_of_text};
use crate::text_laws::white_points;
use vstd::prelude::*;
use vstd::string::*;

verus! {

// ---------------------------------------------------------------------------
// Tokens
// ---------------------------------------------------------------------------

/// Whether a character is white space.
pub open spec fn white(c: char) -> bool {
    white_points().contains(c as u32)
}

/// Whether a text is white space alone.
pub open spec fn blank(s: Seq<char>) -> bool {
    forall|i: int| 0 <= i < s.len() ==> white(#[trigger] s[i])
}

/// Whether what stands between quotes spells a text: a backslash and a character stand for the end
/// of a line (`n`), a return (`r`), a tab (`t`) or the character itself; every other character but
/// a quote stands for itself.
pub open spec fn spells(body: Seq<char>, t: Seq<char>) -> bool
    decreases body.len(),
{
    if body.len() == 0 {
        t.len() == 0
    } else if body[0] == '\\' {
        &&& body.len() >= 2
        &&& t.len() > 0
        &&& body[1] == 'n' ==> t[0] == '\n'
        &&& body[1] == 'r' ==> t[0] == '\r'
        &&& body[1] == 't' ==> t[0] == '\t'
        &&& body[1] != 'n' && body[1] != 'r' && body[1] != 't' ==> t[0] == body[1]
        &&& spells(body.skip(2), t.skip(1))
    } else {
        body[0] != '"' && t.len() > 0 && t[0] == body[0] && spells(body.skip(1), t.skip(1))
    }
}

proof fn lemma_quoted_spells(s: Seq<char>) -> (body: Seq<char>)
    requires
        quoted(s) is Some,
    ensures
        s == body + seq!['"'] + (quoted(s)->0).1,
        spells(body, (quoted(s)->0).0),
    decreases s.len(),
{
    let t = (quoted(s)->0).0;
    let rest = (quoted(s)->0).1;
    if s[0] == '"' {
        assert(s =~= Seq::<char>::empty() + seq!['"'] + rest);
        Seq::empty()
    } else if s[0] == '\\' {
        let inner = lemma_quoted_spells(s.skip(2));
        let body = seq![s[0], s[1]] + inner;
        assert(s =~= seq![s[0], s[1]] + s.skip(2));
        assert(s =~= body + seq!['"'] + rest);
        assert(body.skip(2) =~= inner);
        assert(t.skip(1) =~= (quoted(s.skip(2))->0).0);
        body
    } else {
        let inner = lemma_quoted_spells(s.skip(1));
        let body = seq![s[0]] + inner;
        assert(s =~= seq![s[0]] + s.skip(1));
        assert(s =~= body + seq!['"'] + rest);
        assert(body.skip(1) =~= inner);
        assert(t.skip(1) =~= (quoted(s.skip(1))->0).0);
        body
    }
}

proof fn lemma_spells_quoted(body: Seq<char>, t: Seq<char>, rest: Seq<char>)
    requires
        spells(body, t),
    ensures
        quoted(body + seq!['"'] + rest) == Some((t, rest)),
    decreases body.len(),
{
    let s = body + seq!['"'] + rest;
    if body.len() == 0 {
        assert(s.skip(1) =~= rest);
        assert(t =~= Seq::<char>::empty());
    } else if body[0] == '\\' {
        lemma_spells_quoted(body.skip(2), t.skip(1), rest);
        assert(s.skip(2) =~= body.skip(2) + seq!['"'] + rest);
        assert(t =~= seq![t[0]] + t.skip(1));
    } else {
        lemma_spells_quoted(body.skip(1), t.skip(1), rest);
        assert(s.skip(1) =~= body.skip(1) + seq!['"'] + rest);
        assert(t =~= seq![t[0]] + t.skip(1));
    }
}

/// Whether a text is white space, a word and the rest: the word is not empty, has no white space,
/// does not begin with a quote, and goes up to white space or the end.
pub open spec fn word_first(s: Seq<char>, front: Seq<char>, t: Seq<char>, rest: Seq<char>) -> bool {
    &&& s == front + t + rest
    &&& blank(front)
    &&& t.len() > 0
    &&& t[0] != '"'
    &&& forall|i: int| 0 <= i < t.len() ==> !white(#[trigger] t[i])
    &&& rest.len() > 0 ==> white(rest[0])
}

/// Whether a text is white space, a text in quotes and the rest.
pub open spec fn quotes_first(
    s: Seq<char>,
    front: Seq<char>,
    body: Seq<char>,
    t: Seq<char>,
    rest: Seq<char>,
) -> bool {
    &&& s == front + seq!['"'] + body + seq!['"'] + rest
    &&& blank(front)
    &&& spells(body, t)
}

proof fn lemma_word_len(s: Seq<char>)
    ensures
        word_len(s) <= s.len(),
        forall|i: int| 0 <= i < word_len(s) ==> !white(#[trigger] s[i]),
        word_len(s) < s.len() ==> white(s[word_len(s) as int]),
    decreases s.len(),
{
    if s.len() > 0 && !is_space(s[0]) {
        let rest = s.skip(1);
        lemma_word_len(rest);
        assert forall|i: int| 0 <= i < word_len(s) implies !white(#[trigger] s[i]) by {
            if i > 0 {
                assert(s[i] == rest[i - 1]);
            }
        }
        if word_len(s) < s.len() {
            assert(s[word_len(s) as int] == rest[word_len(rest) as int]);
        }
    }
}

proof fn lemma_trim_start_cut(s: Seq<char>) -> (front: Seq<char>)
    ensures
        s == front + trim_start(s),
        blank(front),
        trim_start(s).len() > 0 ==> !white(trim_start(s)[0]),
    decreases s.len(),
{
    if s.len() > 0 && is_space(s[0]) {
        let inner = lemma_trim_start_cut(s.skip(1));
        let front = seq![s[0]] + inner;
        assert(s =~= seq![s[0]] + s.skip(1));
        assert(seq![s[0]] + (inner + trim_start(s)) =~= front + trim_start(s));
        assert forall|i: int| 0 <= i < front.len() implies white(#[trigger] front[i]) by {
            if i > 0 {
                assert(front[i] == inner[i - 1]);
            }
        }
        front
    } else {
        assert(s =~= Seq::<char>::empty() + s);
        Seq::empty()
    }
}

proof fn lemma_trim_start_skips(front: Seq<char>, t: Seq<char>)
    requires
        blank(front),
        t.len() > 0 ==> !white(t[0]),
    ensures
        trim_start(front + t) == t,
    decreases front.len(),
{
    if front.len() > 0 {
        let rest = front.skip(1);
        assert forall|i: int| 0 <= i < rest.len() implies white(#[trigger] rest[i]) by {
            assert(rest[i] == front[i + 1]);
        }
        lemma_trim_start_skips(rest, t);
        assert((front + t).skip(1) =~= rest + t);
        assert(white(front[0]));
        assert((front + t)[0] == front[0]);
    } else {
        assert(front + t =~= t);
    }
}

proof fn lemma_word_len_is(t: Seq<char>, rest: Seq<char>)
    requires
        forall|i: int| 0 <= i < t.len() ==> !white(#[trigger] t[i]),
        rest.len() > 0 ==> white(rest[0]),
    ensures
        word_len(t + rest) == t.len(),
    decreases t.len(),
{
    if t.len() > 0 {
        let more = t.skip(1);
        assert forall|i: int| 0 <= i < more.len() implies !white(#[trigger] more[i]) by {
            assert(more[i] == t[i + 1]);
        }
        lemma_word_len_is(more, rest);
        assert((t + rest).skip(1) =~= more + rest);
        assert(!white(t[0]));
    } else {
        assert(t + rest =~= rest);
    }
}

/// The first token of a text is the word that stands first, or what is spelled between the quotes
/// that stand first; behind it is the rest. A blank text has no token, and quotes that are not
/// closed are none.
pub proof fn law_tokens(
    input: &[char],
    r: Result<(String, &[char]), String>,
    front: Seq<char>,
    body: Seq<char>,
    t: Seq<char>,
    rest: Seq<char>,
)
    requires
        call_ensures(take_token, (input,), r),
    ensures
        word_first(input@, front, t, rest) || quotes_first(input@, front, body, t, rest) ==> (
        r matches Ok((text, left)) && text@ == t && left@ == rest),
        r matches Ok((text, left)) ==> (exists|f: Seq<char>| #[trigger]
            word_first(input@, f, text@, left@)) || (exists|f: Seq<char>, b: Seq<char>| #[trigger]
            quotes_first(input@, f, b, text@, left@)),
        r matches Err(e) ==> e@ == (if blank(input@) {
            "ERROR missing_argument"@
        } else {
            "ERROR invalid_argument"@
        }),
        blank(input@) ==> r is Err,
{
    lemma_token_first(input@, front, body, t, rest);
}

pub(crate) proof fn lemma_token_first(
    s: Seq<char>,
    front: Seq<char>,
    body: Seq<char>,
    t: Seq<char>,
    rest: Seq<char>,
)
    ensures
        word_first(s, front, t, rest) || quotes_first(s, front, body, t, rest) ==> token(s) == Ok::<
            (Seq<char>, Seq<char>),
            Seq<char>,
        >((t, rest)),
        token(s) matches Ok((text, left)) ==> (exists|f: Seq<char>| #[trigger]
            word_first(s, f, text, left)) || (exists|f: Seq<char>, b: Seq<char>| #[trigger]
            quotes_first(s, f, b, text, left)),
        token(s) matches Err(e) ==> e == (if blank(s) {
            "ERROR missing_argument"@
        } else {
            "ERROR invalid_argument"@
        }),
        blank(s) ==> token(s) is Err,
{
    let skipped = lemma_trim_start_cut(s);
    let u = trim_start(s);
    if blank(s) {
        if u.len() > 0 {
            assert(s[skipped.len() as int] == u[0]);
        }
    } else {
        if u.len() == 0 {
            assert(s =~= skipped);
        }
    }
    if word_first(s, front, t, rest) {
        assert(s =~= front + (t + rest));
        assert(!white(t[0]));
        lemma_trim_start_skips(front, t + rest);
        lemma_word_len_is(t, rest);
        assert((t + rest).take(t.len() as int) =~= t);
        assert((t + rest).skip(t.len() as int) =~= rest);
    }
    if quotes_first(s, front, body, t, rest) {
        let q = seq!['"'] + body + seq!['"'] + rest;
        assert(s =~= front + q);
        assert(q[0] == '"');
        lemma_trim_start_skips(front, q);
        assert(q.skip(1) =~= body + seq!['"'] + rest);
        lemma_spells_quoted(body, t, rest);
    }
    if let Ok((text, left)) = token(s) {
        if u[0] == '"' {
            let b = lemma_quoted_spells(u.skip(1));
            assert(u =~= seq!['"'] + u.skip(1));
            assert(s =~= skipped + seq!['"'] + b + seq!['"'] + left);
            assert(quotes_first(s, skipped, b, text, left));
        } else {
            lemma_word_len(u);
            assert(u =~= text + left);
            assert(s =~= skipped + text + left);
            assert forall|i: int| 0 <= i < text.len() implies !white(#[trigger] text[i]) by {
                assert(text[i] == u[i]);
            }
            assert(text.len() > 0) by {
                assert(!is_space(u[0]));
            }
            if left.len() > 0 {
                assert(left[0] == u[word_len(u) as int]);
            }
            assert(word_first(s, skipped, text, left));
        }
    }
}

/// The number of a room is read from the first token.
pub proof fn law_room_numbers(
    input: &[char],
    first: Result<(String, &[char]), String>,
    r: Result<(u64, &[char]), String>,
)
    requires
        call_ensures(take_token, (input,), first),
        call_ensures(parse_room_id_from_remainder, (input,), r),
    ensures
        match first {
            Err(e) => r matches Err(text) && text@ == e@,
            Ok((t, rest)) => match u64_of_text(t@) {
                Some(id) => r matches Ok((room_id, left)) && room_id == id && left@ == rest@,
                None => r matches Err(text) && text@ == "ERROR invalid_room_id"@,
            },
        },
{
}

/// Whether a text can stand as a token without quotes.
pub open spec fn plain(s: Seq<char>) -> bool {
    &&& s.len() > 0
    &&& forall|i: int|
        0 <= i < s.len() ==> !white(#[trigger] s[i]) && s[i] != '"' && s[i] != '\\'
}

/// A text that can stand without quotes is written as it is, and any other one in quotes, in which
/// backslashes, quotes, ends of lines, returns and tabs are written with a backslash and every
/// other character as it is, one after the other.
pub proof fn law_written_tokens(
    s: &str,
    quotes: bool,
    inner: String,
    r: String,
    a: Seq<char>,
    b: Seq<char>,
    c: char,
)
    requires
        call_ensures(needs_quote, (s,), quotes),
        call_ensures(escape_token, (s,), inner),
        call_ensures(format_token, (s,), r),
    ensures
        quotes <==> !plain(s@),
        plain(s@) ==> r@ == s@,
        !plain(s@) ==> r@ == seq!['"'] + inner@ + seq!['"'],
        inner@ == escape(s@),
        escape(a + b) == escape(a) + escape(b),
        escape(Seq::empty()) == Seq::<char>::empty(),
        c == '\\' ==> escape(seq![c]) == seq!['\\', '\\'],
        c == '"' ==> escape(seq![c]) == seq!['\\', '"'],
        c == '\n' ==> escape(seq![c]) == seq!['\\', 'n'],
        c == '\r' ==> escape(seq![c]) == seq!['\\', 'r'],
        c == '\t' ==> escape(seq![c]) == seq!['\\', 't'],
        c != '\\' && c != '"' && c != '\n' && c != '\r' && c != '\t' ==> escape(seq![c]) == seq![c],
{
    assert(quoting_needed(s@) == !plain(s@)) by {
        if quoting_needed(s@) && s@.len() > 0 {
            let i = choose|i: int|
                0 <= i < s@.len() && (is_space(#[trigger] s@[i]) || s@[i] == '"' || s@[i] == '\\');
            assert(white(s@[i]) || s@[i] == '"' || s@[i] == '\\');
        }
        if !plain(s@) && s@.len() > 0 {
            let i = choose|i: int|
                0 <= i < s@.len() && !(!white(#[trigger] s@[i]) && s@[i] != '"' && s@[i] != '\\');
            assert(is_space(s@[i]) || s@[i] == '"' || s@[i] == '\\');
        }
    }
    lemma_escape_joins(a, b);
    assert(seq![c].drop_last() =~= Seq::<char>::empty());
    assert(escape(Seq::empty()) =~= Seq::<char>::empty());
    assert(escape(seq![c]) == escape(Seq::empty()) + escape_char(c));
    assert(escape(seq![c]) =~= escape_char(c));
}

proof fn lemma_escape_joins(a: Seq<char>, b: Seq<char>)
    ensures
        escape(a + b) == escape(a) + escape(b),
    decreases b.len(),
{
    if b.len() == 0 {
        assert(a + b =~= a);
        assert(escape(a) + escape(b) =~= escape(a));
    } else {
        lemma_escape_joins(a, b.drop_last());
        assert((a + b).drop_last() =~= a + b.drop_last());
        assert(escape(a + b) =~= escape(a) + escape(b));
    }
}

// ---------------------------------------------------------------------------
// Commands
// ---------------------------------------------------------------------------

/// What a command says: its word, its room, its texts and its value.
pub open spec fn said(c: Command) -> (Seq<char>, Option<u64>, Seq<Seq<char>>, Option<Seq<char>>) {
    match c {
        Command::RoomCreate => ("ROOM.CREATE"@, None, seq![], None),
        Command::RoomDelete(id) => ("ROOM.DELETE"@, Some(id), seq![], None),
        Command::RoomList => ("ROOM.LIST"@, None, seq![], None),
        Command::RoomInfo(id) => ("ROOM.INFO"@, Some(id), seq![], None),
        Command::RoomLabel(id, label) => ("ROOM.LABEL"@, Some(id), seq![label@], None),
        Command::RoomFind(label) => ("ROOM.FIND"@, None, seq![label@], None),
        Command::SetValue { room_id, container, key, value } => (
            "SET"@,
            Some(room_id),
            seq![container@, key@],
            Some(value@),
        ),
        Command::Del { room_id, container, key } => (
            "DEL"@,
            Some(room_id),
            seq![container@, key@],
            None,
        ),
        Command::Get { room_id, container, key } => (
            "GET"@,
            Some(room_id),
            seq![container@, key@],
            None,
        ),
        Command::ServerSet { room_id, key, value } => (
            "SERVER.SET"@,
            Some(room_id),
            seq![key@],
            Some(value@),
        ),
        Command::ServerDel { room_id, key } => ("SERVER.DEL"@, Some(room_id), seq![key@], None),
        Command::ServerGet { room_id, key } => ("SERVER.GET"@, Some(room_id), seq![key@], None),
        Command::Version(id) => ("VERSION"@, Some(id), seq![], None),
        Command::SetJwtKey(key) => ("SET.JWTKEY"@, None, seq![key@], None),
        Command::TxBegin(id) => ("TX.BEGIN"@, Some(id), seq![], None),
        Command::TxEnd(id) => ("TX.END"@, Some(id), seq![], None),
        Command::TxAbort(id) => ("TX.ABORT"@, Some(id), seq![], None),
        Command::TokenGen { room_id, containers } => (
            "TOKEN.GEN"@,
            Some(room_id),
            texts(containers@),
            None,
        ),
        Command::Save { room_id } => ("SAVE"@, Some(room_id), seq![], None),
        Command::Load { room_id } => ("LOAD"@, Some(room_id), seq![], None),
        Command::PersistSet { room_id, container, key } => (
            "PERSIST.SET"@,
            Some(room_id),
            seq![container@, key@],
            None,
        ),
        Command::PersistUnset { room_id, container, key } => (
            "PERSIST.UNSET"@,
            Some(room_id),
            seq![container@, key@],
            None,
        ),
        Command::PersistGet { room_id, container, key } => (
            "PERSIST.GET"@,
            Some(room_id),
            seq![container@, key@],
            None,
        ),
    }
}

/// Whether a text is a row of tokens and the rest.
pub open spec fn reads(s: Seq<char>, row: Seq<Seq<char>>, rest: Seq<char>) -> bool
    decreases row.len(),
{
    if row.len() == 0 {
        rest == s
    } else {
        token(s) matches Ok((t, left)) && t == row[0] && reads(left, row.skip(1), rest)
    }
}

/// The tokens of a line up to its texts: the word of the command, and the text of its room if it
/// names one.
pub open spec fn head_of(name: Seq<char>, room: Option<u64>, digits: Seq<char>) -> Seq<Seq<char>> {
    if room is Some {
        seq![name, digits]
    } else {
        seq![name]
    }
}

/// Whether a line stands for a command: it is the word of the command, the number of its room if it
/// names one, and its texts, each a token. Behind them stands the JSON of its value if it has one,
/// and else nothing. A label may not be blank.
pub open spec fn stands_for(
    line: Seq<char>,
    c: Command,
    digits: Seq<char>,
    rest: Seq<char>,
) -> bool {
    let (name, room, args, value) = said(c);
    &&& reads(line, head_of(name, room, digits) + args, rest)
    &&& room matches Some(id) ==> u64_of_text(digits) == Some(id)
    &&& c is RoomLabel ==> trim(args[0]).len() > 0
    &&& match value {
        Some(v) => trim_start(rest).len() > 0 && json_text(trim_start(rest)) == Ok::<
            Seq<char>,
            Seq<char>,
        >(v),
        None => trim(rest).len() == 0,
    }
}

proof fn lemma_reads_tokens(n: nat, s: Seq<char>)
    ensures
        tokens(n, s) matches Ok((row, rest)) ==> row.len() == n && reads(s, row, rest),
    decreases n,
{
    if n > 0 {
        if let Ok((t, left)) = token(s) {
            lemma_reads_tokens((n - 1) as nat, left);
            if let Ok((row, rest)) = tokens(n, s) {
                let more = tokens((n - 1) as nat, left)->Ok_0.0;
                assert(row.skip(1) =~= more);
            }
        }
    }
}

proof fn lemma_tokens_read(s: Seq<char>, row: Seq<Seq<char>>, rest: Seq<char>)
    requires
        reads(s, row, rest),
    ensures
        tokens(row.len(), s) == Ok::<(Seq<Seq<char>>, Seq<char>), Seq<char>>((row, rest)),
    decreases row.len(),
{
    if row.len() > 0 {
        let left = token(s)->Ok_0.1;
        lemma_tokens_read(left, row.skip(1), rest);
        assert(row =~= seq![row[0]] + row.skip(1));
    } else {
        assert(row =~= Seq::<Seq<char>>::empty());
    }
}

proof fn lemma_reads_all(s: Seq<char>)
    ensures
        all_tokens(s) matches Ok((row, rest)) ==> reads(s, row, rest) && trim(rest).len() == 0,
    decreases s.len(),
{
    if trim(s).len() > 0 {
        if let Ok((t, left)) = token(s) {
            crate::protocol::lemma_token_len(s);
            lemma_reads_all(left);
            if let Ok((row, rest)) = all_tokens(s) {
                assert(row.skip(1) =~= all_tokens(left)->Ok_0.0);
            }
        }
    }
}

/// A text is blank after trimming exactly if nothing is left of it from its front.
proof fn lemma_trim_blank(s: Seq<char>)
    ensures
        trim(s).len() == 0 <==> trim_start(s).len() == 0,
{
    let u = trim_start(s);
    let _ = lemma_trim_start_cut(s);
    if u.len() > 0 {
        lemma_trim_end_keeps(u);
    }
}

proof fn lemma_trim_end_keeps(u: Seq<char>)
    requires
        u.len() > 0,
        !white(u[0]),
    ensures
        trim_end(u).len() > 0,
    decreases u.len(),
{
    if is_space(u.last()) {
        assert(u.len() > 1);
        lemma_trim_end_keeps(u.drop_last());
    }
}

proof fn lemma_all_read(s: Seq<char>, row: Seq<Seq<char>>, rest: Seq<char>)
    requires
        reads(s, row, rest),
        trim(rest).len() == 0,
    ensures
        all_tokens(s) == Ok::<(Seq<Seq<char>>, Seq<char>), Seq<char>>((row, rest)),
    decreases row.len(),
{
    if row.len() > 0 {
        lemma_trim_blank(s);
        let left = token(s)->Ok_0.1;
        crate::protocol::lemma_token_len(s);
        lemma_all_read(left, row.skip(1), rest);
        assert(row =~= seq![row[0]] + row.skip(1));
    } else {
        assert(row =~= Seq::<Seq<char>>::empty());
    }
}

proof fn lemma_reads_join(s: Seq<char>, a: Seq<Seq<char>>, b: Seq<Seq<char>>, mid: Seq<char>, rest: Seq<char>)
    requires
        reads(s, a, mid),
        reads(mid, b, rest),
    ensures
        reads(s, a + b, rest),
    decreases a.len(),
{
    if a.len() > 0 {
        lemma_reads_join(token(s)->Ok_0.1, a.skip(1), b, mid, rest);
        assert((a + b).skip(1) =~= a.skip(1) + b);
    } else {
        assert(a + b =~= b);
    }
}

proof fn lemma_reads_split(s: Seq<char>, a: Seq<Seq<char>>, b: Seq<Seq<char>>, rest: Seq<char>) -> (
    mid: Seq<char>)
    requires
        reads(s, a + b, rest),
    ensures
        reads(s, a, mid),
        reads(mid, b, rest),
    decreases a.len(),
{
    if a.len() > 0 {
        assert((a + b).skip(1) =~= a.skip(1) + b);
        lemma_reads_split(token(s)->Ok_0.1, a.skip(1), b, rest)
    } else {
        assert(a + b =~= b);
        s
    }
}

proof fn lemma_said(c: Command)
    ensures
        said(c).0 == crate::protocol::verb_name(c@.verb),
        said(c).1 == c@.room_id,
        said(c).2 == c@.args,
        said(c).3 == c@.value,
        verb_named(said(c).0) == Some(c@.verb),
        (c is RoomLabel) == (c@.verb is RoomLabel),
{
    crate::protocol_laws::lemma_verb_round_trip(c@.verb);
}

proof fn lemma_head(name: Seq<char>, room: Option<u64>, digits: Seq<char>, line: Seq<char>, mid: Seq<char>)
    ensures
        reads(line, head_of(name, room, digits), mid) <==> (token(line) matches Ok((t, left)) && t
            == name && (if room is Some {
            token(left) matches Ok((d, after)) && d == digits && after == mid
        } else {
            left == mid
        })),
{
    let row = head_of(name, room, digits);
    reveal_with_fuel(reads, 3);
    if room is Some {
        assert(row.skip(1) =~= seq![digits]);
        assert(row.skip(1).skip(1) =~= Seq::<Seq<char>>::empty());
    } else {
        assert(row.skip(1) =~= Seq::<Seq<char>>::empty());
    }
}

/// A line is parsed as a command exactly if it stands for it.
pub proof fn law_commands_are_parsed(
    line: &str,
    r: Result<Command, String>,
    c: Command,
    digits: Seq<char>,
    rest: Seq<char>,
)
    requires
        call_ensures(parse_command, (line,), r),
    ensures
        r matches Ok(command) ==> exists|d: Seq<char>, left: Seq<char>| #[trigger]
            stands_for(line@, command, d, left),
        stands_for(line@, c, digits, rest) ==> (r matches Ok(command) && said(command) == said(c)),
{
    if let Ok(command) = r {
        lemma_parsed_stands(line@, command);
    }
    if stands_for(line@, c, digits, rest) {
        lemma_stands_parsed(line@, c, digits, rest);
        lemma_said(c);
        if let Ok(command) = r {
            lemma_said(command);
        }
    }
}

proof fn lemma_parsed_stands(line: Seq<char>, c: Command)
    requires
        read_command(line) == Ok::<CommandView, Seq<char>>(c@),
    ensures
        exists|d: Seq<char>, left: Seq<char>| #[trigger] stands_for(line, c, d, left),
{
    lemma_said(c);
    let (name, room, args, value) = said(c);
    let (first, after_name) = token(line)->Ok_0;
    let verb = verb_named(first)->0;
    lemma_named(first);
    let mut digits: Seq<char> = Seq::empty();
    let mut mid = after_name;
    if has_room(verb) {
        digits = token(after_name)->Ok_0.0;
        mid = token(after_name)->Ok_0.1;
    }
    assert(c@.verb == verb && c@.room_id is Some == has_room(verb));
    lemma_head(name, room, digits, line, mid);
    let n = arg_count(verb);
    lemma_reads_tokens(n, mid);
    let (fixed, left) = tokens(n, mid)->Ok_0;
    match tail_of(verb) {
        Tail::Tokens => {
            lemma_reads_all(left);
            let (more, rest) = all_tokens(left)->Ok_0;
            lemma_reads_join(mid, fixed, more, left, rest);
            lemma_reads_join(line, head_of(name, room, digits), args, mid, rest);
            assert(stands_for(line, c, digits, rest));
        },
        _ => {
            lemma_reads_join(line, head_of(name, room, digits), args, mid, left);
            assert(stands_for(line, c, digits, left));
        },
    }
}

proof fn lemma_named(name: Seq<char>)
    ensures
        verb_named(name) matches Some(verb) ==> crate::protocol::verb_name(verb) == name,
{
}

proof fn lemma_stands_parsed(line: Seq<char>, c: Command, digits: Seq<char>, rest: Seq<char>)
    requires
        stands_for(line, c, digits, rest),
    ensures
        read_command(line) == Ok::<CommandView, Seq<char>>(c@),
{
    lemma_said(c);
    crate::protocol::law_command_shaped(c);
    let (name, room, args, value) = said(c);
    let verb = c@.verb;
    let mid = lemma_reads_split(line, head_of(name, room, digits), args, rest);
    lemma_head(name, room, digits, line, mid);
    match tail_of(verb) {
        Tail::Tokens => {
            lemma_all_read(mid, args, rest);
            assert(tokens(0, mid) == Ok::<(Seq<Seq<char>>, Seq<char>), Seq<char>>(
                (Seq::empty(), mid),
            ));
            assert(Seq::<Seq<char>>::empty() + args =~= args);
        },
        _ => {
            lemma_tokens_read(mid, args, rest);
        },
    }
}

/// What a command with a word takes: whether it names a room, how many texts, and whether JSON or
/// more texts come behind them. Of a word that is none of a command, nothing.
pub open spec fn shape_of(name: Seq<char>) -> Option<(bool, nat, Tail)> {
    if name == "ROOM.CREATE"@ || name == "ROOM.LIST"@ {
        Some((false, 0, Tail::Nothing))
    } else if name == "ROOM.FIND"@ || name == "SET.JWTKEY"@ {
        Some((false, 1, Tail::Nothing))
    } else if name == "ROOM.DELETE"@ || name == "ROOM.INFO"@ || name == "VERSION"@ || name
        == "TX.BEGIN"@ || name == "TX.END"@ || name == "TX.ABORT"@ || name == "SAVE"@ || name
        == "LOAD"@ {
        Some((true, 0, Tail::Nothing))
    } else if name == "ROOM.LABEL"@ || name == "SERVER.DEL"@ || name == "SERVER.GET"@ {
        Some((true, 1, Tail::Nothing))
    } else if name == "DEL"@ || name == "GET"@ || name == "PERSIST.SET"@ || name == "PERSIST.UNSET"@
        || name == "PERSIST.GET"@ {
        Some((true, 2, Tail::Nothing))
    } else if name == "SET"@ {
        Some((true, 2, Tail::Json))
    } else if name == "SERVER.SET"@ {
        Some((true, 1, Tail::Json))
    } else if name == "TOKEN.GEN"@ {
        Some((true, 0, Tail::Tokens))
    } else {
        None
    }
}

proof fn lemma_shape(name: Seq<char>)
    ensures
        shape_of(name) == (match verb_named(name) {
            Some(verb) => Some((has_room(verb), arg_count(verb), tail_of(verb))),
            None => None,
        }),
        verb_named(name) == Some(Verb::RoomLabel) <==> name == "ROOM.LABEL"@,
{
    if let Some(verb) = verb_named(name) {
        lemma_named(name);
        crate::protocol_laws::lemma_verb_round_trip(verb);
    }
    crate::protocol_laws::lemma_verb_round_trip(Verb::RoomLabel);
    crate::protocol_laws::lemma_verb_round_trip(Verb::RoomCreate);
    crate::protocol_laws::lemma_verb_round_trip(Verb::RoomList);
    crate::protocol_laws::lemma_verb_round_trip(Verb::RoomFind);
    crate::protocol_laws::lemma_verb_round_trip(Verb::SetJwtKey);
    crate::protocol_laws::lemma_verb_round_trip(Verb::RoomDelete);
    crate::protocol_laws::lemma_verb_round_trip(Verb::RoomInfo);
    crate::protocol_laws::lemma_verb_round_trip(Verb::Version);
    crate::protocol_laws::lemma_verb_round_trip(Verb::TxBegin);
    crate::protocol_laws::lemma_verb_round_trip(Verb::TxEnd);
    crate::protocol_laws::lemma_verb_round_trip(Verb::TxAbort);
    crate::protocol_laws::lemma_verb_round_trip(Verb::Save);
    crate::protocol_laws::lemma_verb_round_trip(Verb::Load);
    crate::protocol_laws::lemma_verb_round_trip(Verb::ServerDel);
    crate::protocol_laws::lemma_verb_round_trip(Verb::ServerGet);
    crate::protocol_laws::lemma_verb_round_trip(Verb::Del);
    crate::protocol_laws::lemma_verb_round_trip(Verb::Get);
    crate::protocol_laws::lemma_verb_round_trip(Verb::PersistSet);
    crate::protocol_laws::lemma_verb_round_trip(Verb::PersistUnset);
    crate::protocol_laws::lemma_verb_round_trip(Verb::PersistGet);
    crate::protocol_laws::lemma_verb_round_trip(Verb::SetValue);
    crate::protocol_laws::lemma_verb_round_trip(Verb::ServerSet);
    crate::protocol_laws::lemma_verb_round_trip(Verb::TokenGen);
}

/// Whether a line is refused with a text.
pub open spec fn refused(r: Result<Command, String>, text: Seq<char>) -> bool {
    r matches Err(e) && e@ == text
}

/// A line is refused with what is wrong with it first: a token that is missing or not closed, a word
/// that is none of a command, a room that is no number, a label that is blank, a value that is
/// missing or no JSON, or something behind the end.
pub proof fn law_lines_are_refused(
    line: &str,
    r: Result<Command, String>,
    row: Seq<Seq<char>>,
    rest: Seq<char>,
)
    requires
        call_ensures(parse_command, (line,), r),
    ensures
        match token(line@) {
            Err(e) => refused(r, e),
            Ok((name, left)) => match shape_of(name) {
                None => refused(r, "ERROR unknown_command"@),
                Some((room, count, tail)) => {
                    let digits = token(left);
                    let args = if room {
                        digits->Ok_0.1
                    } else {
                        left
                    };
                    if room && digits is Err {
                        refused(r, digits->Err_0)
                    } else if room && u64_of_text(digits->Ok_0.0) is None {
                        refused(r, "ERROR invalid_room_id"@)
                    } else {
                        &&& reads(args, row, rest) && row.len() < count ==> (token(
                            rest,
                        ) matches Err(e) ==> refused(r, e))
                        &&& reads(args, row, rest) && row.len() == count ==> {
                            if name == "ROOM.LABEL"@ && trim(row[0]).len() == 0 {
                                refused(r, "ERROR label_invalid"@)
                            } else {
                                match tail {
                                    Tail::Nothing => trim(rest).len() > 0 ==> refused(
                                        r,
                                        "ERROR extra_arguments"@,
                                    ),
                                    Tail::Json => {
                                        &&& trim_start(rest).len() == 0 ==> refused(
                                            r,
                                            "ERROR missing_value"@,
                                        )
                                        &&& trim_start(rest).len() > 0 ==> (json_text(
                                            trim_start(rest),
                                        ) matches Err(e) ==> refused(
                                            r,
                                            "ERROR invalid_json "@ + e,
                                        ))
                                    },
                                    Tail::Tokens => true,
                                }
                            }
                        }
                        &&& tail is Tokens && reads(args, row, rest) && trim(rest).len() > 0 ==> (
                        token(rest) matches Err(e) ==> refused(r, e))
                    }
                },
            },
        },
{
    if let Ok((name, left)) = token(line@) {
        lemma_shape(name);
        if let Some((room, count, tail)) = shape_of(name) {
            let args = if room {
                token(left)->Ok_0.1
            } else {
                left
            };
            if reads(args, row, rest) {
                if row.len() < count {
                    if token(rest) is Err {
                        lemma_tokens_fail(args, row, rest, count);
                    }
                }
                if row.len() == count {
                    lemma_tokens_read(args, row, rest);
                }
                if tail is Tokens && trim(rest).len() > 0 && token(rest) is Err {
                    lemma_all_fail(args, row, rest);
                }
            }
        }
    }
}

proof fn lemma_tokens_fail(s: Seq<char>, row: Seq<Seq<char>>, rest: Seq<char>, n: nat)
    requires
        reads(s, row, rest),
        row.len() < n,
        token(rest) is Err,
    ensures
        tokens(n, s) == Err::<(Seq<Seq<char>>, Seq<char>), Seq<char>>(token(rest)->Err_0),
    decreases row.len(),
{
    if row.len() > 0 {
        lemma_tokens_fail(token(s)->Ok_0.1, row.skip(1), rest, (n - 1) as nat);
    }
}

proof fn lemma_all_fail(s: Seq<char>, row: Seq<Seq<char>>, rest: Seq<char>)
    requires
        reads(s, row, rest),
        trim(rest).len() > 0,
        token(rest) is Err,
    ensures
        all_tokens(s) == Err::<(Seq<Seq<char>>, Seq<char>), Seq<char>>(token(rest)->Err_0),
    decreases row.len(),
{
    if row.len() > 0 {
        lemma_trim_blank(s);
        crate::protocol::lemma_token_len(s);
        lemma_all_fail(token(s)->Ok_0.1, row.skip(1), rest);
    }
}

/// The texts of a command as they are written: each behind a space, one after the other.
pub open spec fn written_args(args: Seq<Seq<char>>) -> Seq<char>
    decreases args.len(),
{
    if args.len() == 0 {
        Seq::empty()
    } else {
        seq![' '] + token_text(args[0]) + written_args(args.skip(1))
    }
}

proof fn lemma_args_front(args: Seq<Seq<char>>)
    requires
        args.len() > 0,
    ensures
        args_text(args) == seq![' '] + token_text(args[0]) + args_text(args.skip(1)),
    decreases args.len(),
{
    if args.len() == 1 {
        assert(args.drop_last() =~= Seq::<Seq<char>>::empty());
        assert(args.skip(1) =~= Seq::<Seq<char>>::empty());
        assert(args_text(args) =~= seq![' '] + token_text(args[0]) + args_text(args.skip(1)));
    } else {
        lemma_args_front(args.drop_last());
        assert(args.drop_last().skip(1) =~= args.skip(1).drop_last());
        assert(args_text(args) =~= seq![' '] + token_text(args[0]) + args_text(args.skip(1)));
    }
}

proof fn lemma_written_args(args: Seq<Seq<char>>)
    ensures
        args_text(args) == written_args(args),
    decreases args.len(),
{
    if args.len() > 0 {
        lemma_args_front(args);
        lemma_written_args(args.skip(1));
    }
}

/// A command is written as its word, the number of its room if it names one, its texts as tokens,
/// and the JSON of its value if it has one, with a space before each.
pub proof fn law_commands_are_written(cmd: &Command, r: String)
    requires
        call_ensures(format_command, (cmd,), r),
    ensures
        ({
            let (name, room, args, value) = said(*cmd);
            let numbered = if room is Some {
                name + seq![' '] + decimal(room->0 as nat)
            } else {
                name
            };
            let full = numbered + written_args(args);
            r@ == if value is Some {
                full + seq![' '] + value->0
            } else {
                full
            }
        }),
{
    lemma_said(*cmd);
    let (name, room, args, value) = said(*cmd);
    lemma_written_args(args);
    let numbered = if room is Some {
        name + seq![' '] + decimal(room->0 as nat)
    } else {
        name
    };
    assert(name + crate::protocol::room_text(room) =~= numbered);
    let full = numbered + written_args(args);
    assert(full + crate::protocol::value_text(value) =~= if value is Some {
        full + seq![' '] + value->0
    } else {
        full
    });
}

// ---------------------------------------------------------------------------
// Responses
// ---------------------------------------------------------------------------

/// Whether a text is a word, white space, and what is behind it, which does not begin with white
/// space.
pub open spec fn behind(s: Seq<char>, word: Seq<char>, gap: Seq<char>, rest: Seq<char>) -> bool {
    s == word + gap + rest && blank(gap) && (rest.len() > 0 ==> !white(rest[0]))
}

/// A response without the white space around it is `OK` with a payload behind it or none, or `ERROR`
/// with a message behind it; anything else is none.
pub proof fn law_responses_are_parsed(
    line: &str,
    r: Result<Response, String>,
    gap: Seq<char>,
    rest: Seq<char>,
)
    requires
        call_ensures(parse_response, (line,), r),
    ensures
        behind(trim(line@), "OK"@, gap, rest) ==> (if rest.len() == 0 {
            r matches Ok(Response::Success(None))
        } else {
            r matches Ok(Response::Success(Some(payload))) && payload@ == rest
        }),
        behind(trim(line@), "ERROR"@, gap, rest) ==> (r matches Ok(Response::Error(message))
            && message@ == rest),
        r matches Ok(Response::Error(_)) ==> exists|g: Seq<char>, t: Seq<char>| #[trigger]
            behind(trim(line@), "ERROR"@, g, t),
        r matches Ok(Response::Success(_)) ==> exists|g: Seq<char>, t: Seq<char>| #[trigger]
            behind(trim(line@), "OK"@, g, t),
        r matches Err(e) ==> e@ == "ERROR invalid_response"@,
{
    let s = trim(line@);
    reveal_strlit("OK");
    reveal_strlit("ERROR");
    if behind(s, "OK"@, gap, rest) {
        assert(s.take(2) =~= "OK"@);
        assert(s.skip(2) =~= gap + rest);
        lemma_trim_start_skips(gap, rest);
    }
    if behind(s, "ERROR"@, gap, rest) {
        assert(s.take(5) =~= "ERROR"@);
        assert(s.skip(5) =~= gap + rest);
        lemma_trim_start_skips(gap, rest);
        if s.take(2) == "OK"@ {
            assert(s[0] == "OK"@[0]);
            assert(s[0] == "ERROR"@[0]);
        }
    }
    if let Ok(response) = r {
        let word = if response is Error {
            "ERROR"@
        } else {
            "OK"@
        };
        let n = word.len() as int;
        let g = lemma_trim_start_cut(s.skip(n));
        let t = trim_start(s.skip(n));
        assert(s =~= s.take(n) + s.skip(n));
        assert(s =~= word + g + t);
        assert(behind(s, word, g, t));
    }
}

/// A success is written as `OK`, with its payload behind a space if it has one, and an error as
/// `ERROR` with its message behind a space.
pub proof fn law_responses_are_written(resp: &Response, r: String)
    requires
        call_ensures(format_response, (resp,), r),
    ensures
        match *resp {
            Response::Success(None) => r@ == "OK"@,
            Response::Success(Some(payload)) => r@ == "OK "@ + payload@,
            Response::Error(message) => r@ == "ERROR "@ + message@,
        },
{
}

} // verus!
