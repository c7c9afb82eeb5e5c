//! What holds between writing and reading the lines of the command API.

use crate::json::{is_compact, json_text};
use crate::protocol::{
    all_tokens, args_text, command_line, law_token_round_trip, law_token_single_line,
    quoting_needed, read_arguments, read_command, read_response, response_line, room_id_token,
    room_text, single_line, tail_of, token, token_boundary, token_text, tokens, value_text,
    verb_name, verb_named, CommandView, ResponseView, Verb,
};
use crate::text::{
    decimal, is_digit, is_space, lemma_decimal, lemma_u64_round_trip, starts_with, trim, trim_end,
    trim_start,
};
use vstd::prelude::*;
use vstd::string::*;

verus! {

proof fn lemma_trim_end_keeps(s: Seq<char>)
    requires
        s.len() > 0,
        !is_space(s[0]),
    ensures
        trim_end(s).len() > 0,
        trim_end(s)[0] == s[0],
    decreases s.len(),
{
    if is_space(s.last()) {
        assert(s.len() > 1);
        lemma_trim_end_keeps(s.drop_last());
    }
}

proof fn lemma_args_text_front(args: Seq<Seq<char>>)
    requires
        args.len() > 0,
    ensures
        args_text(args) == (seq![' '] + token_text(args[0])) + args_text(args.skip(1)),
    decreases args.len(),
{
    let more = args.skip(1);
    if args.len() == 1 {
        assert(args.drop_last() =~= Seq::<Seq<char>>::empty());
        assert(more =~= Seq::<Seq<char>>::empty());
        assert(args_text(args) =~= (seq![' '] + token_text(args[0])) + args_text(more));
    } else {
        lemma_args_text_front(args.drop_last());
        assert(args.drop_last().skip(1) =~= more.drop_last());
        assert(args_text(args) =~= (seq![' '] + token_text(args[0])) + args_text(more));
    }
}

proof fn lemma_args_boundary(args: Seq<Seq<char>>, rest: Seq<char>)
    requires
        token_boundary(rest),
    ensures
        token_boundary(args_text(args) + rest),
{
    if args.len() == 0 {
        assert(args_text(args) + rest =~= rest);
    } else {
        lemma_args_text_front(args);
        assert((args_text(args) + rest)[0] == ' ');
    }
}

/// Reading as many tokens as were written gives back the texts and what follows.
proof fn lemma_tokens_round_trip(args: Seq<Seq<char>>, rest: Seq<char>)
    requires
        token_boundary(rest),
    ensures
        tokens(args.len(), args_text(args) + rest) == Ok::<(Seq<Seq<char>>, Seq<char>), Seq<char>>(
            (args, rest),
        ),
    decreases args.len(),
{
    if args.len() == 0 {
        assert(args_text(args) + rest =~= rest);
        assert(args =~= Seq::<Seq<char>>::empty());
    } else {
        let more = args.skip(1);
        lemma_args_text_front(args);
        lemma_args_boundary(more, rest);
        lemma_tokens_round_trip(more, rest);
        let behind = args_text(more) + rest;
        assert(args_text(args) + rest =~= seq![' '] + (token_text(args[0]) + behind));
        law_token_round_trip(args[0], behind);
        assert(seq![args[0]] + more =~= args);
    }
}

proof fn lemma_all_tokens_round_trip(args: Seq<Seq<char>>)
    ensures
        all_tokens(args_text(args)) == Ok::<(Seq<Seq<char>>, Seq<char>), Seq<char>>(
            (args, Seq::empty()),
        ),
    decreases args.len(),
{
    if args.len() == 0 {
        assert(args =~= Seq::<Seq<char>>::empty());
        assert(args_text(args) =~= Seq::<char>::empty());
    } else {
        let more = args.skip(1);
        let rest = args_text(more);
        let s = args_text(args);
        lemma_args_text_front(args);
        lemma_all_tokens_round_trip(more);
        lemma_args_boundary(more, Seq::empty());
        assert(rest + Seq::<char>::empty() =~= rest);
        assert(s =~= seq![' '] + (token_text(args[0]) + rest));
        law_token_round_trip(args[0], rest);
        assert(trim(s).len() > 0) by {
            let t = token_text(args[0]) + rest;
            assert(s.skip(1) =~= t);
            assert(t[0] == token_text(args[0])[0]);
            if !quoting_needed(args[0]) {
                assert(!is_space(args[0][0]));
            }
            assert(trim_start(t) == t);
            assert(trim_start(s) == trim_start(s.skip(1)));
            lemma_trim_end_keeps(t);
        }
        assert(seq![args[0]] + more =~= args);
    }
}

proof fn lemma_decimal_token(n: u64)
    ensures
        token_text(decimal(n as nat)) == decimal(n as nat),
{
    lemma_decimal(n as nat);
    let d = decimal(n as nat);
    assert forall|i: int| 0 <= i < d.len() implies !(is_space(#[trigger] d[i]) || d[i] == '"'
        || d[i] == '\\') by {
        assert(is_digit(d[i]));
    }
}

/// What the names of the verbs are made of: capital letters and dots.
spec fn plain_name(s: Seq<char>) -> bool {
    s.len() > 0 && forall|i: int|
        0 <= i < s.len() ==> ('A' <= (#[trigger] s[i]) && s[i] <= 'Z') || s[i] == '.'
}

proof fn lemma_plain_token(s: Seq<char>)
    requires
        plain_name(s),
    ensures
        token_text(s) == s,
        single_line(s),
{
    assert forall|i: int| 0 <= i < s.len() implies !(is_space(#[trigger] s[i]) || s[i] == '"'
        || s[i] == '\\') && s[i] != '\n' && s[i] != '\r' by {}
}

/// The word of a command is read as the word of that command.
pub(crate) proof fn lemma_verb_round_trip(verb: Verb)
    ensures
        verb_named(verb_name(verb)) == Some(verb),
{
    lemma_verb_name(verb);
}

/// The name of a verb is plain, and no other verb has it.
proof fn lemma_verb_name(verb: Verb)
    ensures
        plain_name(verb_name(verb)),
        verb_named(verb_name(verb)) == Some(verb),
{
    reveal_strlit("ROOM.CREATE");
    reveal_strlit("ROOM.DELETE");
    reveal_strlit("ROOM.LIST");
    reveal_strlit("ROOM.INFO");
    reveal_strlit("ROOM.LABEL");
    reveal_strlit("ROOM.FIND");
    reveal_strlit("SET");
    reveal_strlit("DEL");
    reveal_strlit("GET");
    reveal_strlit("SERVER.SET");
    reveal_strlit("SERVER.DEL");
    reveal_strlit("SERVER.GET");
    reveal_strlit("VERSION");
    reveal_strlit("SET.JWTKEY");
    reveal_strlit("TX.BEGIN");
    reveal_strlit("TX.END");
    reveal_strlit("TX.ABORT");
    reveal_strlit("TOKEN.GEN");
    reveal_strlit("SAVE");
    reveal_strlit("LOAD");
    reveal_strlit("PERSIST.SET");
    reveal_strlit("PERSIST.UNSET");
    reveal_strlit("PERSIST.GET");
    let name = verb_name(verb);
    match verb {
        Verb::RoomCreate => {
        },
        Verb::RoomDelete => {
            assert(name[5] != "ROOM.CREATE"@[5]);
        },
        Verb::RoomList => {
            assert(name.len() != "ROOM.CREATE"@.len());
            assert(name.len() != "ROOM.DELETE"@.len());
        },
        Verb::RoomInfo => {
            assert(name.len() != "ROOM.CREATE"@.len());
            assert(name.len() != "ROOM.DELETE"@.len());
            assert(name[5] != "ROOM.LIST"@[5]);
        },
        Verb::RoomLabel => {
            assert(name.len() != "ROOM.CREATE"@.len());
            assert(name.len() != "ROOM.DELETE"@.len());
            assert(name.len() != "ROOM.LIST"@.len());
            assert(name.len() != "ROOM.INFO"@.len());
        },
        Verb::RoomFind => {
            assert(name.len() != "ROOM.CREATE"@.len());
            assert(name.len() != "ROOM.DELETE"@.len());
            assert(name[5] != "ROOM.LIST"@[5]);
            assert(name[5] != "ROOM.INFO"@[5]);
            assert(name.len() != "ROOM.LABEL"@.len());
        },
        Verb::SetValue => {
            assert(name.len() != "ROOM.CREATE"@.len());
            assert(name.len() != "ROOM.DELETE"@.len());
            assert(name.len() != "ROOM.LIST"@.len());
            assert(name.len() != "ROOM.INFO"@.len());
            assert(name.len() != "ROOM.LABEL"@.len());
            assert(name.len() != "ROOM.FIND"@.len());
        },
        Verb::Del => {
            assert(name.len() != "ROOM.CREATE"@.len());
            assert(name.len() != "ROOM.DELETE"@.len());
            assert(name.len() != "ROOM.LIST"@.len());
            assert(name.len() != "ROOM.INFO"@.len());
            assert(name.len() != "ROOM.LABEL"@.len());
            assert(name.len() != "ROOM.FIND"@.len());
            assert(name[0] != "SET"@[0]);
        },
        Verb::Get => {
            assert(name.len() != "ROOM.CREATE"@.len());
            assert(name.len() != "ROOM.DELETE"@.len());
            assert(name.len() != "ROOM.LIST"@.len());
            assert(name.len() != "ROOM.INFO"@.len());
            assert(name.len() != "ROOM.LABEL"@.len());
            assert(name.len() != "ROOM.FIND"@.len());
            assert(name[0] != "SET"@[0]);
            assert(name[0] != "DEL"@[0]);
        },
        Verb::ServerSet => {
            assert(name.len() != "ROOM.CREATE"@.len());
            assert(name.len() != "ROOM.DELETE"@.len());
            assert(name.len() != "ROOM.LIST"@.len());
            assert(name.len() != "ROOM.INFO"@.len());
            assert(name[0] != "ROOM.LABEL"@[0]);
            assert(name.len() != "ROOM.FIND"@.len());
            assert(name.len() != "SET"@.len());
            assert(name.len() != "DEL"@.len());
            assert(name.len() != "GET"@.len());
        },
        Verb::ServerDel => {
            assert(name.len() != "ROOM.CREATE"@.len());
            assert(name.len() != "ROOM.DELETE"@.len());
            assert(name.len() != "ROOM.LIST"@.len());
            assert(name.len() != "ROOM.INFO"@.len());
            assert(name[0] != "ROOM.LABEL"@[0]);
            assert(name.len() != "ROOM.FIND"@.len());
            assert(name.len() != "SET"@.len());
            assert(name.len() != "DEL"@.len());
            assert(name.len() != "GET"@.len());
            assert(name[7] != "SERVER.SET"@[7]);
        },
        Verb::ServerGet => {
            assert(name.len() != "ROOM.CREATE"@.len());
            assert(name.len() != "ROOM.DELETE"@.len());
            assert(name.len() != "ROOM.LIST"@.len());
            assert(name.len() != "ROOM.INFO"@.len());
            assert(name[0] != "ROOM.LABEL"@[0]);
            assert(name.len() != "ROOM.FIND"@.len());
            assert(name.len() != "SET"@.len());
            assert(name.len() != "DEL"@.len());
            assert(name.len() != "GET"@.len());
            assert(name[7] != "SERVER.SET"@[7]);
            assert(name[7] != "SERVER.DEL"@[7]);
        },
        Verb::Version => {
            assert(name.len() != "ROOM.CREATE"@.len());
            assert(name.len() != "ROOM.DELETE"@.len());
            assert(name.len() != "ROOM.LIST"@.len());
            assert(name.len() != "ROOM.INFO"@.len());
            assert(name.len() != "ROOM.LABEL"@.len());
            assert(name.len() != "ROOM.FIND"@.len());
            assert(name.len() != "SET"@.len());
            assert(name.len() != "DEL"@.len());
            assert(name.len() != "GET"@.len());
            assert(name.len() != "SERVER.SET"@.len());
            assert(name.len() != "SERVER.DEL"@.len());
            assert(name.len() != "SERVER.GET"@.len());
        },
        Verb::SetJwtKey => {
            assert(name.len() != "ROOM.CREATE"@.len());
            assert(name.len() != "ROOM.DELETE"@.len());
            assert(name.len() != "ROOM.LIST"@.len());
            assert(name.len() != "ROOM.INFO"@.len());
            assert(name[0] != "ROOM.LABEL"@[0]);
            assert(name.len() != "ROOM.FIND"@.len());
            assert(name.len() != "SET"@.len());
            assert(name.len() != "DEL"@.len());
            assert(name.len() != "GET"@.len());
            assert(name[2] != "SERVER.SET"@[2]);
            assert(name[2] != "SERVER.DEL"@[2]);
            assert(name[2] != "SERVER.GET"@[2]);
            assert(name.len() != "VERSION"@.len());
        },
        Verb::TxBegin => {
            assert(name.len() != "ROOM.CREATE"@.len());
            assert(name.len() != "ROOM.DELETE"@.len());
            assert(name.len() != "ROOM.LIST"@.len());
            assert(name.len() != "ROOM.INFO"@.len());
            assert(name.len() != "ROOM.LABEL"@.len());
            assert(name.len() != "ROOM.FIND"@.len());
            assert(name.len() != "SET"@.len());
            assert(name.len() != "DEL"@.len());
            assert(name.len() != "GET"@.len());
            assert(name.len() != "SERVER.SET"@.len());
            assert(name.len() != "SERVER.DEL"@.len());
            assert(name.len() != "SERVER.GET"@.len());
            assert(name.len() != "VERSION"@.len());
            assert(name.len() != "SET.JWTKEY"@.len());
        },
        Verb::TxEnd => {
            assert(name.len() != "ROOM.CREATE"@.len());
            assert(name.len() != "ROOM.DELETE"@.len());
            assert(name.len() != "ROOM.LIST"@.len());
            assert(name.len() != "ROOM.INFO"@.len());
            assert(name.len() != "ROOM.LABEL"@.len());
            assert(name.len() != "ROOM.FIND"@.len());
            assert(name.len() != "SET"@.len());
            assert(name.len() != "DEL"@.len());
            assert(name.len() != "GET"@.len());
            assert(name.len() != "SERVER.SET"@.len());
            assert(name.len() != "SERVER.DEL"@.len());
            assert(name.len() != "SERVER.GET"@.len());
            assert(name.len() != "VERSION"@.len());
            assert(name.len() != "SET.JWTKEY"@.len());
            assert(name.len() != "TX.BEGIN"@.len());
        },
        Verb::TxAbort => {
            assert(name.len() != "ROOM.CREATE"@.len());
            assert(name.len() != "ROOM.DELETE"@.len());
            assert(name.len() != "ROOM.LIST"@.len());
            assert(name.len() != "ROOM.INFO"@.len());
            assert(name.len() != "ROOM.LABEL"@.len());
            assert(name.len() != "ROOM.FIND"@.len());
            assert(name.len() != "SET"@.len());
            assert(name.len() != "DEL"@.len());
            assert(name.len() != "GET"@.len());
            assert(name.len() != "SERVER.SET"@.len());
            assert(name.len() != "SERVER.DEL"@.len());
            assert(name.len() != "SERVER.GET"@.len());
            assert(name.len() != "VERSION"@.len());
            assert(name.len() != "SET.JWTKEY"@.len());
            assert(name[3] != "TX.BEGIN"@[3]);
            assert(name.len() != "TX.END"@.len());
        },
        Verb::TokenGen => {
            assert(name.len() != "ROOM.CREATE"@.len());
            assert(name.len() != "ROOM.DELETE"@.len());
            assert(name[0] != "ROOM.LIST"@[0]);
            assert(name[0] != "ROOM.INFO"@[0]);
            assert(name.len() != "ROOM.LABEL"@.len());
            assert(name[0] != "ROOM.FIND"@[0]);
            assert(name.len() != "SET"@.len());
            assert(name.len() != "DEL"@.len());
            assert(name.len() != "GET"@.len());
            assert(name.len() != "SERVER.SET"@.len());
            assert(name.len() != "SERVER.DEL"@.len());
            assert(name.len() != "SERVER.GET"@.len());
            assert(name.len() != "VERSION"@.len());
            assert(name.len() != "SET.JWTKEY"@.len());
            assert(name.len() != "TX.BEGIN"@.len());
            assert(name.len() != "TX.END"@.len());
            assert(name.len() != "TX.ABORT"@.len());
        },
        Verb::Save => {
            assert(name.len() != "ROOM.CREATE"@.len());
            assert(name.len() != "ROOM.DELETE"@.len());
            assert(name.len() != "ROOM.LIST"@.len());
            assert(name.len() != "ROOM.INFO"@.len());
            assert(name.len() != "ROOM.LABEL"@.len());
            assert(name.len() != "ROOM.FIND"@.len());
            assert(name.len() != "SET"@.len());
            assert(name.len() != "DEL"@.len());
            assert(name.len() != "GET"@.len());
            assert(name.len() != "SERVER.SET"@.len());
            assert(name.len() != "SERVER.DEL"@.len());
            assert(name.len() != "SERVER.GET"@.len());
            assert(name.len() != "VERSION"@.len());
            assert(name.len() != "SET.JWTKEY"@.len());
            assert(name.len() != "TX.BEGIN"@.len());
            assert(name.len() != "TX.END"@.len());
            assert(name.len() != "TX.ABORT"@.len());
            assert(name.len() != "TOKEN.GEN"@.len());
        },
        Verb::Load => {
            assert(name.len() != "ROOM.CREATE"@.len());
            assert(name.len() != "ROOM.DELETE"@.len());
            assert(name.len() != "ROOM.LIST"@.len());
            assert(name.len() != "ROOM.INFO"@.len());
            assert(name.len() != "ROOM.LABEL"@.len());
            assert(name.len() != "ROOM.FIND"@.len());
            assert(name.len() != "SET"@.len());
            assert(name.len() != "DEL"@.len());
            assert(name.len() != "GET"@.len());
            assert(name.len() != "SERVER.SET"@.len());
            assert(name.len() != "SERVER.DEL"@.len());
            assert(name.len() != "SERVER.GET"@.len());
            assert(name.len() != "VERSION"@.len());
            assert(name.len() != "SET.JWTKEY"@.len());
            assert(name.len() != "TX.BEGIN"@.len());
            assert(name.len() != "TX.END"@.len());
            assert(name.len() != "TX.ABORT"@.len());
            assert(name.len() != "TOKEN.GEN"@.len());
            assert(name[0] != "SAVE"@[0]);
        },
        Verb::PersistSet => {
            assert(name[0] != "ROOM.CREATE"@[0]);
            assert(name[0] != "ROOM.DELETE"@[0]);
            assert(name.len() != "ROOM.LIST"@.len());
            assert(name.len() != "ROOM.INFO"@.len());
            assert(name.len() != "ROOM.LABEL"@.len());
            assert(name.len() != "ROOM.FIND"@.len());
            assert(name.len() != "SET"@.len());
            assert(name.len() != "DEL"@.len());
            assert(name.len() != "GET"@.len());
            assert(name.len() != "SERVER.SET"@.len());
            assert(name.len() != "SERVER.DEL"@.len());
            assert(name.len() != "SERVER.GET"@.len());
            assert(name.len() != "VERSION"@.len());
            assert(name.len() != "SET.JWTKEY"@.len());
            assert(name.len() != "TX.BEGIN"@.len());
            assert(name.len() != "TX.END"@.len());
            assert(name.len() != "TX.ABORT"@.len());
            assert(name.len() != "TOKEN.GEN"@.len());
            assert(name.len() != "SAVE"@.len());
            assert(name.len() != "LOAD"@.len());
        },
        Verb::PersistUnset => {
            assert(name.len() != "ROOM.CREATE"@.len());
            assert(name.len() != "ROOM.DELETE"@.len());
            assert(name.len() != "ROOM.LIST"@.len());
            assert(name.len() != "ROOM.INFO"@.len());
            assert(name.len() != "ROOM.LABEL"@.len());
            assert(name.len() != "ROOM.FIND"@.len());
            assert(name.len() != "SET"@.len());
            assert(name.len() != "DEL"@.len());
            assert(name.len() != "GET"@.len());
            assert(name.len() != "SERVER.SET"@.len());
            assert(name.len() != "SERVER.DEL"@.len());
            assert(name.len() != "SERVER.GET"@.len());
            assert(name.len() != "VERSION"@.len());
            assert(name.len() != "SET.JWTKEY"@.len());
            assert(name.len() != "TX.BEGIN"@.len());
            assert(name.len() != "TX.END"@.len());
            assert(name.len() != "TX.ABORT"@.len());
            assert(name.len() != "TOKEN.GEN"@.len());
            assert(name.len() != "SAVE"@.len());
            assert(name.len() != "LOAD"@.len());
            assert(name.len() != "PERSIST.SET"@.len());
        },
        Verb::PersistGet => {
            assert(name[0] != "ROOM.CREATE"@[0]);
            assert(name[0] != "ROOM.DELETE"@[0]);
            assert(name.len() != "ROOM.LIST"@.len());
            assert(name.len() != "ROOM.INFO"@.len());
            assert(name.len() != "ROOM.LABEL"@.len());
            assert(name.len() != "ROOM.FIND"@.len());
            assert(name.len() != "SET"@.len());
            assert(name.len() != "DEL"@.len());
            assert(name.len() != "GET"@.len());
            assert(name.len() != "SERVER.SET"@.len());
            assert(name.len() != "SERVER.DEL"@.len());
            assert(name.len() != "SERVER.GET"@.len());
            assert(name.len() != "VERSION"@.len());
            assert(name.len() != "SET.JWTKEY"@.len());
            assert(name.len() != "TX.BEGIN"@.len());
            assert(name.len() != "TX.END"@.len());
            assert(name.len() != "TX.ABORT"@.len());
            assert(name.len() != "TOKEN.GEN"@.len());
            assert(name.len() != "SAVE"@.len());
            assert(name.len() != "LOAD"@.len());
            assert(name[8] != "PERSIST.SET"@[8]);
            assert(name.len() != "PERSIST.UNSET"@.len());
        },
    }
}

/// Whether the JSON value of a command is read back from its own compact text. It
/// is for every value but some with a fractional number, whose last digit may change.
pub open spec fn value_stable(c: CommandView) -> bool {
    match c.value {
        Some(v) => json_text(v) == Ok::<Seq<char>, Seq<char>>(v),
        None => true,
    }
}

/// A valid command: parts that fit the verb, compact text for the value, and a
/// label that is not blank.
pub open spec fn valid_command(c: CommandView) -> bool {
    &&& c.shaped()
    &&& c.value matches Some(v) ==> is_compact(v)
    &&& c.verb is RoomLabel ==> trim(c.args[0]).len() > 0
}

/// Writing a command and reading the line gives the command back.
pub proof fn law_command_round_trip(c: CommandView)
    requires
        valid_command(c),
    ensures
        value_stable(c) ==> read_command(command_line(c)) == Ok::<CommandView, Seq<char>>(c),
{
    if value_stable(c) {
        let name = verb_name(c.verb);
        let tail = value_text(c.value);
        let behind_room = args_text(c.args) + tail;
        let behind_name = room_text(c.room_id) + behind_room;
        assert(token_boundary(tail));
        lemma_args_boundary(c.args, tail);
        assert(token_boundary(behind_name)) by {
            if c.room_id is None {
                assert(behind_name =~= behind_room);
            } else {
                assert(behind_name[0] == ' ');
            }
        }
        lemma_verb_name(c.verb);
        lemma_plain_token(name);
        law_token_round_trip(name, behind_name);
        assert(command_line(c) =~= name + behind_name);
        assert(token(command_line(c)) == Ok::<(Seq<char>, Seq<char>), Seq<char>>(
            (name, behind_name),
        ));
        if let Some(id) = c.room_id {
            let digits = decimal(id as nat);
            lemma_decimal_token(id);
            lemma_u64_round_trip(id);
            law_token_round_trip(digits, behind_room);
            assert(behind_name =~= seq![' '] + (digits + behind_room));
            assert(room_id_token(behind_name) == Ok::<(u64, Seq<char>), Seq<char>>(
                (id, behind_room),
            ));
        } else {
            assert(behind_name =~= behind_room);
        }
        assert(read_command(command_line(c)) == read_arguments(c.verb, c.room_id, behind_room));
        if tail_of(c.verb) is Tokens {
            assert(behind_room =~= args_text(c.args));
            lemma_all_tokens_round_trip(c.args);
            assert(Seq::<Seq<char>>::empty() + c.args =~= c.args);
        } else {
            lemma_tokens_round_trip(c.args, tail);
            if let Some(v) = c.value {
                assert(tail.skip(1) =~= v);
                assert(trim_start(tail) == trim_start(v));
                assert(trim_start(v) == v);
            }
        }
    }
}

proof fn lemma_args_single_line(args: Seq<Seq<char>>)
    ensures
        single_line(args_text(args)),
    decreases args.len(),
{
    if args.len() > 0 {
        lemma_args_single_line(args.drop_last());
        law_token_single_line(args.last());
        lemma_single_line_join(seq![' '], token_text(args.last()));
        lemma_single_line_join(args_text(args.drop_last()), seq![' '] + token_text(args.last()));
    }
}

proof fn lemma_single_line_join(a: Seq<char>, b: Seq<char>)
    requires
        single_line(a),
        single_line(b),
    ensures
        single_line(a + b),
{
    let s = a + b;
    assert forall|i: int| 0 <= i < s.len() implies #[trigger] s[i] != '\n' && s[i] != '\r' by {
        if i < a.len() {
            assert(s[i] == a[i]);
        } else {
            assert(s[i] == b[i - a.len()]);
        }
    }
}

/// A written command never breaks its line, whatever its texts hold.
pub proof fn law_command_single_line(c: CommandView)
    requires
        c.value matches Some(v) ==> is_compact(v),
    ensures
        single_line(command_line(c)),
{
    lemma_verb_name(c.verb);
    lemma_plain_token(verb_name(c.verb));
    assert(single_line(room_text(c.room_id))) by {
        if let Some(id) = c.room_id {
            let digits = decimal(id as nat);
            lemma_decimal(id as nat);
            assert forall|i: int| 0 <= i < digits.len() implies #[trigger] digits[i] != '\n'
                && digits[i] != '\r' by {
                assert(is_digit(digits[i]));
            }
            lemma_single_line_join(seq![' '], digits);
        }
    }
    lemma_args_single_line(c.args);
    assert(single_line(value_text(c.value))) by {
        if let Some(v) = c.value {
            assert(single_line(v));
            lemma_single_line_join(seq![' '], v);
        }
    }
    let head = verb_name(c.verb) + room_text(c.room_id);
    lemma_single_line_join(verb_name(c.verb), room_text(c.room_id));
    lemma_single_line_join(head, args_text(c.args));
    lemma_single_line_join(head + args_text(c.args), value_text(c.value));
}

/// Two valid commands that are written alike are the same command.
pub proof fn law_command_line_injective(a: CommandView, b: CommandView)
    requires
        valid_command(a),
        valid_command(b),
        command_line(a) == command_line(b),
    ensures
        value_stable(a) && value_stable(b) ==> a == b,
{
    law_command_round_trip(a);
    law_command_round_trip(b);
}

proof fn lemma_trim_identity(s: Seq<char>)
    requires
        s.len() > 0,
        !is_space(s[0]),
        !is_space(s.last()),
    ensures
        trim(s) == s,
{
}

/// Writing a response and reading the line gives the response back, where the
/// payload or the message has no white space at its ends and a payload is not empty.
pub proof fn law_response_round_trip(r: ResponseView)
    requires
        r matches ResponseView::Success(Some(p)) ==> p.len() > 0 && trim(p) == p,
        r matches ResponseView::Error(m) ==> trim(m) == m,
    ensures
        read_response(response_line(r)) == Some(r),
{
    reveal_strlit("OK");
    reveal_strlit("OK ");
    reveal_strlit("ERROR");
    reveal_strlit("ERROR ");
    let line = response_line(r);
    match r {
        ResponseView::Success(None) => {
            lemma_trim_identity(line);
            assert(line.take(2) =~= "OK"@);
            assert(line.skip(2) =~= Seq::<char>::empty());
        },
        ResponseView::Success(Some(p)) => {
            lemma_trimmed_ends(p);
            lemma_trim_identity(line);
            assert(line.take(2) =~= "OK"@);
            assert(line.skip(2).skip(1) =~= p);
            assert(trim_start(line.skip(2)) == trim_start(p));
        },
        ResponseView::Error(m) => {
            if m.len() == 0 {
                assert(trim_start(line) == line);
                assert(line.drop_last() =~= "ERROR"@);
                assert(trim_end(line) == trim_end("ERROR"@));
                assert(trim(line) == "ERROR"@);
                assert("ERROR"@.take(5) =~= "ERROR"@);
                assert("ERROR"@.skip(5) =~= m);
                assert(!starts_with("ERROR"@, "OK"@)) by {
                    assert("ERROR"@.take(2)[0] == 'E');
                }
            } else {
                lemma_trimmed_ends(m);
                lemma_trim_identity(line);
                assert(line.take(5) =~= "ERROR"@);
                assert(line.skip(5).skip(1) =~= m);
                assert(trim_start(line.skip(5)) == trim_start(m));
                assert(!starts_with(line, "OK"@)) by {
                    assert(line.take(2)[0] == 'E');
                }
            }
        },
    }
}

proof fn lemma_trim_end_last(s: Seq<char>)
    ensures
        trim_end(s).len() <= s.len(),
        trim_end(s).len() > 0 ==> !is_space(trim_end(s).last()),
    decreases s.len(),
{
    if s.len() > 0 && is_space(s.last()) {
        lemma_trim_end_last(s.drop_last());
    }
}

proof fn lemma_trim_start_first(s: Seq<char>)
    ensures
        trim_start(s).len() <= s.len(),
        trim_start(s).len() > 0 ==> !is_space(trim_start(s)[0]),
    decreases s.len(),
{
    if s.len() > 0 && is_space(s[0]) {
        lemma_trim_start_first(s.skip(1));
    }
}

/// A text that trimming leaves as it is has no white space at its ends.
proof fn lemma_trimmed_ends(s: Seq<char>)
    requires
        s.len() > 0,
        trim(s) == s,
    ensures
        !is_space(s[0]),
        !is_space(s.last()),
        trim_start(s) == s,
{
    lemma_trim_start_first(s);
    lemma_trim_end_last(trim_start(s));
    if is_space(s[0]) {
        lemma_trim_start_first(s.skip(1));
        lemma_trim_end_last(trim_start(s.skip(1)));
    }
}

} // verus!
