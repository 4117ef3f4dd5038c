//! Properties of the store that span several operations.
use crate::command_type::{keyword_type, CommandType};
use crate::format::{
    data_text, lemma_split_data_text, lemma_split_log_text, log_text, plain_word, split_words,
};
use crate::item::{
    data_replay, data_step, log_replay, log_step, map_texts_non_empty, snapshot_of, snapshot_texts,
};
use crate::command::{command_of, command_step, CommandView};
use crate::errors;
use crate::model::{pairs_map, Pair};
use crate::protocol::reply_text;
use crate::text::{decimal_text, digit_char};
use vstd::prelude::*;

verus! {

/// A `set` of a key with a value (`Some`) or without one (`None`), as texts.
pub type Op = (Seq<char>, Option<Seq<char>>);

/// The state change of one `set`: a value sets the key, none unsets it.
pub open spec fn apply_op(m: Map<Seq<char>, Seq<char>>, op: Op) -> Map<Seq<char>, Seq<char>> {
    match op.1 {
        Some(v) => m.insert(op.0, v),
        None => m.remove(op.0),
    }
}

/// The state after a sequence of `set`s, in order.
pub open spec fn apply_ops(m: Map<Seq<char>, Seq<char>>, ops: Seq<Op>) -> Map<Seq<char>, Seq<char>>
    decreases ops.len(),
{
    if ops.len() == 0 {
        m
    } else {
        apply_op(apply_ops(m, ops.drop_last()), ops.last())
    }
}

/// The log record that a `set` appends.
pub open spec fn op_record(op: Op) -> Seq<char> {
    match op.1 {
        Some(v) => log_text(seq!["set"@, op.0, v]),
        None => log_text(seq!["set"@, op.0]),
    }
}

/// The log records of a sequence of `set`s, in order.
pub open spec fn op_records(ops: Seq<Op>) -> Seq<Seq<char>> {
    ops.map_values(|op: Op| op_record(op))
}

/// Every key and every value in the `set`s is non-empty.
pub open spec fn ops_non_empty(ops: Seq<Op>) -> bool {
    forall|i: int|
        0 <= i < ops.len() ==> #[trigger] ops[i].0.len() > 0 && (ops[i].1 matches Some(v)
            ==> v.len() > 0)
}

/// Every key and every value among the pairs is non-empty.
pub open spec fn pairs_non_empty(ps: Seq<Pair>) -> bool {
    forall|i: int| 0 <= i < ps.len() ==> #[trigger] ps[i].0.len() > 0 && ps[i].1.len() > 0
}

/// A read gives back what the last write of its key wrote, and a write to
/// one key leaves every other key as it was.
pub proof fn law_read_after_write(m: Map<Seq<char>, Seq<char>>, k: Seq<char>, v: Seq<char>, other: Seq<char>)
    requires
        other != k,
    ensures
        m.insert(k, v).contains_key(k),
        m.insert(k, v)[k] == v,
        m.insert(k, v).contains_key(other) == m.contains_key(other),
        m.contains_key(other) ==> m.insert(k, v)[other] == m[other],
{
}

/// After an unset, a read of the key finds nothing; other keys keep their
/// values; and unsetting a key that is not there changes nothing.
pub proof fn law_unset(m: Map<Seq<char>, Seq<char>>, k: Seq<char>, other: Seq<char>)
    requires
        other != k,
    ensures
        !m.remove(k).contains_key(k),
        m.remove(k).contains_key(other) == m.contains_key(other),
        m.contains_key(other) ==> m.remove(k)[other] == m[other],
        !m.contains_key(k) ==> m.remove(k) == m,
{
    if !m.contains_key(k) {
        assert(m.remove(k) =~= m);
    }
}

/// A second write to a key replaces the first.
pub proof fn law_last_write_wins(m: Map<Seq<char>, Seq<char>>, k: Seq<char>, v1: Seq<char>, v2: Seq<char>)
    ensures
        m.insert(k, v1).insert(k, v2) == m.insert(k, v2),
{
    assert(m.insert(k, v1).insert(k, v2) =~= m.insert(k, v2));
}

/// `length` counts keys: setting a new key adds one, setting a present key
/// adds none, and unsetting a present key takes one away.
pub proof fn law_length(m: Map<Seq<char>, Seq<char>>, k: Seq<char>, v: Seq<char>)
    requires
        m.dom().finite(),
    ensures
        m.insert(k, v).len() == if m.contains_key(k) {
            m.len()
        } else {
            m.len() + 1
        },
        m.remove(k).len() == if m.contains_key(k) {
            m.len() - 1
        } else {
            m.len() as int
        },
{
    if m.contains_key(k) {
        assert(m.insert(k, v).dom() =~= m.dom());
    } else {
        assert(m.remove(k).dom() =~= m.dom());
    }
}

/// The record of a `set` with a non-empty key (and a non-empty value, if any)
/// is read back as the same words, and replaying it makes the same change.
pub proof fn law_log_record_read_back(m: Map<Seq<char>, Seq<char>>, op: Op)
    requires
        op.0.len() > 0,
        op.1 matches Some(v) ==> v.len() > 0,
    ensures
        split_words(op_record(op)) == match op.1 {
            Some(v) => seq!["set"@, op.0, v],
            None => seq!["set"@, op.0],
        },
        log_step(m, split_words(op_record(op))) == Some(apply_op(m, op)),
{
    reveal_strlit("set");
    let w: Seq<Seq<char>> = match op.1 {
        Some(v) => seq!["set"@, op.0, v],
        None => seq!["set"@, op.0],
    };
    assert(plain_word(w[0]));
    lemma_split_log_text(w);
    assert(keyword_type(w[0]) == Some(CommandType::SetKey));
}

/// Replaying the log records of a sequence of `set`s (non-empty keys and
/// values) reproduces the state they made, and every record is accepted.
pub proof fn law_log_replay(m: Map<Seq<char>, Seq<char>>, ops: Seq<Op>)
    requires
        ops_non_empty(ops),
    ensures
        log_replay(m, op_records(ops)) == (apply_ops(m, ops), true),
    decreases ops.len(),
{
    if ops.len() > 0 {
        let front = ops.drop_last();
        assert(ops_non_empty(front)) by {
            assert forall|i: int| 0 <= i < front.len() implies #[trigger] front[i].0.len() > 0 && (
            front[i].1 matches Some(v) ==> v.len() > 0) by {
                assert(front[i] == ops[i]);
            }
        }
        law_log_replay(m, front);
        assert(op_records(ops).drop_last() =~= op_records(front));
        let last = ops[ops.len() - 1];
        assert(last.0.len() > 0);
        law_log_record_read_back(apply_ops(m, front), last);
    }
}

/// Reading back the snapshot lines of pairs with non-empty keys and values
/// rebuilds their map, and every line is accepted.
pub proof fn law_snapshot_read_back(ps: Seq<Pair>)
    requires
        pairs_non_empty(ps),
    ensures
        data_replay(Map::empty(), snapshot_texts(ps)) == (pairs_map(ps), true),
    decreases ps.len(),
{
    if ps.len() > 0 {
        let front = ps.drop_last();
        assert(pairs_non_empty(front)) by {
            assert forall|i: int| 0 <= i < front.len() implies #[trigger] front[i].0.len() > 0
                && front[i].1.len() > 0 by {
                assert(front[i] == ps[i]);
            }
        }
        law_snapshot_read_back(front);
        assert(snapshot_texts(ps).drop_last() =~= snapshot_texts(front));
        let last = ps[ps.len() - 1];
        assert(last.0.len() > 0 && last.1.len() > 0);
        lemma_split_data_text(last.0, last.1);
        assert(data_step(pairs_map(front), data_text(last.0, last.1)) == Some(
            pairs_map(front).insert(last.0, last.1),
        ));
    }
}

/// A restart restores the store: loading a snapshot of a map with non-empty
/// keys and values (such as `Item::data_lines` writes), then the log of the
/// `set`s made since, gives the state those `set`s made from that map, with no
/// line refused.
pub proof fn law_restart_restores(
    m: Map<Seq<char>, Seq<char>>,
    lines: Seq<Seq<char>>,
    ops: Seq<Op>,
)
    requires
        snapshot_of(m, lines),
        map_texts_non_empty(m),
        ops_non_empty(ops),
    ensures
        data_replay(Map::empty(), lines) == (m, true),
        log_replay(m, op_records(ops)) == (apply_ops(m, ops), true),
{
    law_log_replay(m, ops);
}

/// The number that a text of decimal digits reads as, most significant first.
pub open spec fn numeral_value(s: Seq<char>) -> int
    decreases s.len(),
{
    if s.len() == 0 {
        0
    } else {
        numeral_value(s.drop_last()) * 10 + (s.last() as int - '0' as int)
    }
}

/// Every character of the text is one of `0` to `9`.
pub open spec fn all_digits(s: Seq<char>) -> bool {
    forall|i: int| 0 <= i < s.len() ==> '0' as int <= #[trigger] s[i] as int <= '9' as int
}

/// The digit character of `d` is the character `d` places after `0`.
pub proof fn law_digit_char(d: nat)
    requires
        d < 10,
    ensures
        digit_char(d) as int == '0' as int + d,
{
}

/// The decimal numeral of `n` is made of digits, has no leading zero, and
/// reads back, digit by digit, as `n`.
pub proof fn law_decimal_text(n: nat)
    ensures
        all_digits(decimal_text(n)),
        numeral_value(decimal_text(n)) == n,
        decimal_text(n).len() > 0,
        decimal_text(n)[0] == '0' ==> n == 0,
    decreases n,
{
    if n < 10 {
        law_digit_char(n);
        assert(decimal_text(n).drop_last() =~= Seq::<char>::empty());
        assert(numeral_value(Seq::<char>::empty()) == 0);
        assert(numeral_value(decimal_text(n)) == n);
    } else {
        law_decimal_text(n / 10);
        law_digit_char(n % 10);
        let t = decimal_text(n);
        assert(t.drop_last() =~= decimal_text(n / 10));
        assert(t.last() == digit_char(n % 10));
        assert(numeral_value(t) == numeral_value(decimal_text(n / 10)) * 10 + (n % 10));
        assert((n / 10) * 10 + n % 10 == n);
        assert(t[0] == decimal_text(n / 10)[0]);
        assert(all_digits(t)) by {
            assert forall|i: int| 0 <= i < t.len() implies '0' as int <= #[trigger] t[i] as int
                <= '9' as int by {
                if i < t.len() - 1 {
                    assert(t[i] == decimal_text(n / 10)[i]);
                }
            }
        }
    }
}

/// `length` answers the number of keys, written in decimal, and leaves the
/// store as it is.
pub proof fn law_length_answer(m: Map<Seq<char>, Seq<char>>)
    ensures
        command_step(CommandView::Length, m).0 == m,
        command_step(CommandView::Length, m).1 matches Ok(Some(t)) && all_digits(t)
            && numeral_value(t) == m.len(),
{
    law_decimal_text(m.len());
}

/// `get` answers the value stored under its key, exactly, or `NOT FOUND` when
/// the key is absent; it leaves the store as it is. In particular `get` after
/// `set k v` answers `v`.
pub proof fn law_get_answer(m: Map<Seq<char>, Seq<char>>, k: Seq<char>, v: Seq<char>)
    ensures
        command_step(CommandView::Get { key: k }, m).0 == m,
        m.contains_key(k) ==> command_step(CommandView::Get { key: k }, m).1 == Ok::<
            Option<Seq<char>>,
            Seq<char>,
        >(Some(m[k])),
        !m.contains_key(k) ==> command_step(CommandView::Get { key: k }, m).1 == Err::<
            Option<Seq<char>>,
            Seq<char>,
        >(errors::NOT_FOUND@),
        command_step(
            CommandView::Get { key: k },
            command_step(CommandView::SetKey { key: k, value: Some(v) }, m).0,
        ).1 == Ok::<Option<Seq<char>>, Seq<char>>(Some(v)),
{
}

/// `set k v` stores `v` under `k`, whether `k` was there or not, and touches
/// no other key; `set k` removes `k` and touches no other key. Both answer
/// nothing.
pub proof fn law_set_effect(m: Map<Seq<char>, Seq<char>>, k: Seq<char>, v: Seq<char>)
    ensures
        command_step(CommandView::SetKey { key: k, value: Some(v) }, m) == (
            m.insert(k, v),
            Ok::<Option<Seq<char>>, Seq<char>>(None),
        ),
        command_step(CommandView::SetKey { key: k, value: None }, m) == (
            m.remove(k),
            Ok::<Option<Seq<char>>, Seq<char>>(None),
        ),
        command_step(CommandView::Snapshot, m) == (m, Ok::<Option<Seq<char>>, Seq<char>>(None)),
{
}

/// The first word names the command and the later words are carried into it
/// unchanged: `get k` reads `k`, `set k v` sets `k` to `v`, `set k` unsets
/// `k`; `length` and `snapshot` take no word; too few words are a
/// `MISSING ARGUMENT` and too many an `EXTRA ARGUMENT`.
pub proof fn law_command_words(k: Seq<char>, v: Seq<char>, more: Seq<char>)
    ensures
        command_of(seq!["get"@, k]) == Ok::<CommandView, Seq<char>>(CommandView::Get { key: k }),
        command_of(seq!["set"@, k]) == Ok::<CommandView, Seq<char>>(
            CommandView::SetKey { key: k, value: None },
        ),
        command_of(seq!["set"@, k, v]) == Ok::<CommandView, Seq<char>>(
            CommandView::SetKey { key: k, value: Some(v) },
        ),
        command_of(seq!["length"@]) == Ok::<CommandView, Seq<char>>(CommandView::Length),
        command_of(seq!["snapshot"@]) == Ok::<CommandView, Seq<char>>(CommandView::Snapshot),
        command_of(seq!["get"@]) == Err::<CommandView, Seq<char>>(errors::MISSING_ARGUMENT@),
        command_of(seq!["set"@]) == Err::<CommandView, Seq<char>>(errors::MISSING_ARGUMENT@),
        command_of(seq!["get"@, k, v]) == Err::<CommandView, Seq<char>>(errors::EXTRA_ARGUMENT@),
        command_of(seq!["set"@, k, v, more]) == Err::<CommandView, Seq<char>>(
            errors::EXTRA_ARGUMENT@,
        ),
        command_of(seq!["length"@, k]) == Err::<CommandView, Seq<char>>(errors::EXTRA_ARGUMENT@),
        command_of(seq!["snapshot"@, k]) == Err::<CommandView, Seq<char>>(
            errors::EXTRA_ARGUMENT@,
        ),
        command_of(Seq::empty()) == Err::<CommandView, Seq<char>>(errors::UNKNOWN_COMMAND@),
{
    law_keywords();
}

/// The four keywords name the four kinds of command, and nothing else does.
pub proof fn law_keywords()
    ensures
        keyword_type("set"@) == Some(CommandType::SetKey),
        keyword_type("get"@) == Some(CommandType::Get),
        keyword_type("length"@) == Some(CommandType::Length),
        keyword_type("snapshot"@) == Some(CommandType::Snapshot),
        forall|s: Seq<char>|
            s != "set"@ && s != "get"@ && s != "length"@ && s != "snapshot"@ ==> #[trigger]
            keyword_type(s) is None,
{
    reveal_strlit("set");
    reveal_strlit("get");
    reveal_strlit("length");
    reveal_strlit("snapshot");
    assert("get"@[0] != "set"@[0]);
    assert("length"@.len() != "set"@.len() && "length"@.len() != "get"@.len());
    assert("snapshot"@.len() != "set"@.len() && "snapshot"@.len() != "get"@.len() && "snapshot"@.len()
        != "length"@.len());
}

/// The server answers a command's text as it is, `OK` when the command gave
/// none, and an error `e` as `ERROR "e"`.
pub proof fn law_reply(s: Seq<char>, e: Seq<char>)
    ensures
        reply_text(Ok(Some(s))) == s,
        reply_text(Ok(None)) == "OK"@,
        reply_text(Err(e)) == "ERROR "@ + seq!['"'] + e + seq!['"'],
{
}

/// A first word that names no command is an `UNKNOWN COMMAND`, whatever follows.
pub proof fn law_unknown_command(args: Seq<Seq<char>>)
    requires
        args.len() > 0,
        args[0] != "set"@,
        args[0] != "get"@,
        args[0] != "length"@,
        args[0] != "snapshot"@,
    ensures
        command_of(args) == Err::<CommandView, Seq<char>>(errors::UNKNOWN_COMMAND@),
{
    law_keywords();
}

/// Only `set` records of a key, or of a key and a value, are accepted in the
/// log; and a snapshot line is accepted exactly when it holds two words, the
/// key and then the value.
pub proof fn law_accepted_lines(m: Map<Seq<char>, Seq<char>>, words: Seq<Seq<char>>, line: Seq<char>)
    ensures
        log_step(m, words) is Some ==> words[0] == "set"@ && (words.len() == 2 || words.len()
            == 3),
        words.len() == 3 && words[0] == "set"@ ==> log_step(m, words) == Some(
            m.insert(words[1], words[2]),
        ),
        words.len() == 2 && words[0] == "set"@ ==> log_step(m, words) == Some(m.remove(words[1])),
        data_step(m, line) is Some <==> split_words(line).len() == 2,
        split_words(line).len() == 2 ==> data_step(m, line) == Some(
            m.insert(split_words(line)[0], split_words(line)[1]),
        ),
{
    law_keywords();
}

/// Plain words are written as they are: a log record of plain words is the
/// words with one blank between each, and a snapshot line of a plain key and
/// value is the key, a blank and the value.
pub proof fn law_plain_words_bare(k: Seq<char>, v: Seq<char>)
    requires
        plain_word(k),
        plain_word(v),
    ensures
        log_text(seq!["set"@, k, v]) == "set"@ + seq![' '] + k + seq![' '] + v,
        log_text(seq!["set"@, k]) == "set"@ + seq![' '] + k,
        data_text(k, v) == k + seq![' '] + v,
{
    let a = seq!["set"@, k, v];
    assert(a.drop_last() =~= seq!["set"@, k]);
    assert(a.drop_last().drop_last() =~= seq!["set"@]);
    assert(log_text(seq!["set"@]) == "set"@);
    assert(log_text(seq!["set"@, k]) == log_text(seq!["set"@]) + seq![' '] + k);
    assert(log_text(a) == log_text(a.drop_last()) + seq![' '] + v);
    assert(log_text(a) =~= "set"@ + seq![' '] + k + seq![' '] + v);
}

} // verus!
