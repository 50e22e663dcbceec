//! Properties of the protocol and the log that hold for all inputs.
use vstd::prelude::*;

use crate::command::{
    all_tokens, get_verb, is_token, join_spaced, lemma_tokens_are_tokens, lemma_tokens_concat,
    lemma_tokens_of_join, parse, set_verb, tokens, CommandModel,
};
use crate::protocol::{
    apply, error_reply, found_reply, log_record, not_found_reply, record_of, reply_to,
};
use crate::shard::shard_of;
use crate::store::replay;
use crate::NUM_SHARDS;

verus! {

/// The request line that looks up `key`.
pub open spec fn get_line(key: Seq<char>) -> Seq<char> {
    get_verb() + seq![' '] + key
}

/// The log records that a sequence of request lines produces, in order.
pub open spec fn log_of(requests: Seq<Seq<char>>) -> Seq<Seq<char>>
    decreases requests.len(),
{
    if requests.len() == 0 {
        seq![]
    } else {
        match record_of(parse(requests.last())) {
            Some(r) => log_of(requests.drop_last()).push(r),
            None => log_of(requests.drop_last()),
        }
    }
}

/// The partition of a key is the same on every call, and is one of the
/// store's partitions.
pub proof fn lemma_shard_stable(k1: Seq<char>, k2: Seq<char>)
    requires
        k1 == k2,
    ensures
        shard_of(k1) == shard_of(k2),
        0 <= shard_of(k1) < NUM_SHARDS,
{
}

proof fn lemma_two_tokens(a: Seq<char>, b: Seq<char>)
    requires
        is_token(a),
        is_token(b),
    ensures
        tokens(a + seq![' '] + b) == seq![a, b],
{
    lemma_tokens_concat(a, b);
    lemma_tokens_of_join(seq![a]);
    lemma_tokens_of_join(seq![b]);
    assert(join_spaced(seq![a]) == a);
    assert(join_spaced(seq![b]) == b);
    assert(seq![a] + seq![b] =~= seq![a, b]);
}

/// A stored key and a value made of tokens parse back from their log
/// record, which is also the request line that stores them.
pub proof fn lemma_record_parses(key: Seq<char>, words: Seq<Seq<char>>)
    requires
        is_token(key),
        words.len() > 0,
        all_tokens(words),
    ensures
        parse(log_record(key, join_spaced(words))) == (CommandModel::Write {
            key,
            value: join_spaced(words),
        }),
{
    let v = join_spaced(words);
    assert(is_token(set_verb()));
    lemma_two_tokens(set_verb(), key);
    lemma_tokens_concat(set_verb() + seq![' '] + key, v);
    lemma_tokens_of_join(words);
    let t = tokens(log_record(key, v));
    assert(t == seq![set_verb(), key] + words);
    assert(t.subrange(2, t.len() as int) =~= words);
}

/// A lookup request names the key it was written with.
pub proof fn lemma_get_parses(key: Seq<char>)
    requires
        is_token(key),
    ensures
        parse(get_line(key)) == (CommandModel::Read { key }),
{
    assert(is_token(get_verb()));
    lemma_two_tokens(get_verb(), key);
}

/// What a stored command holds: a key that is one token, and a value that is
/// tokens joined by single spaces.
proof fn lemma_write_shape(s: Seq<char>)
    requires
        parse(s) is Write,
    ensures
        is_token(parse(s)->Write_key),
        parse(log_record(parse(s)->Write_key, parse(s)->Write_value)) == parse(s),
{
    let t = tokens(s);
    lemma_tokens_are_tokens(s);
    let ws = t.subrange(2, t.len() as int);
    assert(all_tokens(ws)) by {
        assert forall|i: int| 0 <= i < ws.len() implies is_token(#[trigger] ws[i]) by {
            assert(ws[i] == t[i + 2]);
        }
    }
    assert(is_token(t[1]));
    if ws.len() == 0 {
        assert(join_spaced(ws).len() == 0);
    }
    lemma_record_parses(t[1], ws);
}

/// Storing a value and then looking its key up, on any store, gives back
/// that value.
pub proof fn lemma_round_trip(m: Map<Seq<char>, Seq<char>>, key: Seq<char>, words: Seq<Seq<char>>)
    requires
        is_token(key),
        words.len() > 0,
        all_tokens(words),
    ensures
        reply_to(m, parse(log_record(key, join_spaced(words)))) == "+OK\r\n"@,
        reply_to(apply(m, parse(log_record(key, join_spaced(words)))), parse(get_line(key)))
            == found_reply(join_spaced(words)),
{
    lemma_record_parses(key, words);
    lemma_get_parses(key);
}

/// After two stores under one key, a lookup gives the second value.
pub proof fn lemma_overwrite(
    m: Map<Seq<char>, Seq<char>>,
    key: Seq<char>,
    first: Seq<Seq<char>>,
    second: Seq<Seq<char>>,
)
    requires
        is_token(key),
        first.len() > 0,
        all_tokens(first),
        second.len() > 0,
        all_tokens(second),
    ensures
        reply_to(
            apply(
                apply(m, parse(log_record(key, join_spaced(first)))),
                parse(log_record(key, join_spaced(second))),
            ),
            parse(get_line(key)),
        ) == found_reply(join_spaced(second)),
{
    lemma_record_parses(key, first);
    lemma_record_parses(key, second);
    lemma_get_parses(key);
}

/// A lookup of a key that the store does not hold gives the not-found frame.
pub proof fn lemma_absent(m: Map<Seq<char>, Seq<char>>, key: Seq<char>)
    requires
        is_token(key),
        !m.contains_key(key),
    ensures
        reply_to(m, parse(get_line(key))) == not_found_reply(),
{
    lemma_get_parses(key);
}

/// Empty input, a store without a value, and a verb other than `SET` and
/// `GET` are each answered with an error frame that gives the reason.
pub proof fn lemma_invalid_inputs(
    m: Map<Seq<char>, Seq<char>>,
    verb: Seq<char>,
    key: Seq<char>,
)
    requires
        is_token(verb),
        verb != set_verb(),
        verb != get_verb(),
        is_token(key),
    ensures
        reply_to(m, parse(Seq::<char>::empty())) == error_reply("Empty command"@),
        reply_to(m, parse(set_verb() + seq![' '] + key)) == error_reply("Value expected"@),
        reply_to(m, parse(verb + seq![' '] + key)) == error_reply("Unknown Command"@),
{
    assert(tokens(Seq::<char>::empty()) =~= Seq::<Seq<char>>::empty());
    assert(is_token(set_verb()));
    lemma_two_tokens(set_verb(), key);
    let t = tokens(set_verb() + seq![' '] + key);
    assert(t.subrange(2, t.len() as int) =~= Seq::<Seq<char>>::empty());
    lemma_two_tokens(verb, key);
}

/// Replaying the log that a run of requests wrote rebuilds the store that the
/// run left, for any number of requests, none included.
pub proof fn lemma_replay_matches_run(m: Map<Seq<char>, Seq<char>>, requests: Seq<Seq<char>>)
    ensures
        replay(m, log_of(requests)) == replay(m, requests),
    decreases requests.len(),
{
    if requests.len() > 0 {
        let rest = requests.drop_last();
        lemma_replay_matches_run(m, rest);
        let c = parse(requests.last());
        if c is Write {
            lemma_write_shape(requests.last());
            let log = log_of(requests);
            assert(log.drop_last() =~= log_of(rest));
        }
    }
}

} // verus!
