//! Parsing of one request line into a command.
use vstd::prelude::*;

use crate::text::{chars_of, is_space, is_space_char, string_from_chars};

verus! {

/// The whitespace-separated tokens of `s`, left to right: maximal runs of
/// non-whitespace characters.
pub open spec fn tokens(s: Seq<char>) -> Seq<Seq<char>>
    decreases s.len(),
{
    if s.len() == 0 {
        seq![]
    } else {
        let prev = tokens(s.drop_last());
        let c = s.last();
        if is_space(c) {
            prev
        } else if s.len() > 1 && !is_space(s[s.len() - 2]) {
            prev.update(prev.len() - 1, prev.last().push(c))
        } else {
            prev.push(seq![c])
        }
    }
}

/// The words of `ws` joined by single spaces.
pub open spec fn join_spaced(ws: Seq<Seq<char>>) -> Seq<char>
    decreases ws.len(),
{
    if ws.len() == 0 {
        seq![]
    } else if ws.len() == 1 {
        ws[0]
    } else {
        join_spaced(ws.drop_last()) + seq![' '] + ws.last()
    }
}

pub open spec fn set_verb() -> Seq<char> {
    seq!['S', 'E', 'T']
}

pub open spec fn get_verb() -> Seq<char> {
    seq!['G', 'E', 'T']
}

/// What a command means, over character sequences.
pub enum CommandModel {
    Write { key: Seq<char>, value: Seq<char> },
    Read { key: Seq<char> },
    Invalid { message: Seq<char> },
}

/// The command that a request line stands for.
pub open spec fn parse(s: Seq<char>) -> CommandModel {
    let t = tokens(s);
    if t.len() == 0 {
        CommandModel::Invalid { message: "Empty command"@ }
    } else if t.len() == 1 {
        CommandModel::Invalid { message: "Key expected"@ }
    } else if t[0] == set_verb() {
        let value = join_spaced(t.subrange(2, t.len() as int));
        if value.len() == 0 {
            CommandModel::Invalid { message: "Value expected"@ }
        } else {
            CommandModel::Write { key: t[1], value }
        }
    } else if t[0] == get_verb() {
        CommandModel::Read { key: t[1] }
    } else {
        CommandModel::Invalid { message: "Unknown Command"@ }
    }
}

/// A single token: non-empty, without whitespace.
pub open spec fn is_token(w: Seq<char>) -> bool {
    w.len() > 0 && forall|i: int| 0 <= i < w.len() ==> !is_space(#[trigger] w[i])
}

pub open spec fn all_tokens(ws: Seq<Seq<char>>) -> bool {
    forall|i: int| 0 <= i < ws.len() ==> is_token(#[trigger] ws[i])
}

proof fn lemma_tokens_nonempty(s: Seq<char>)
    requires
        s.len() > 0,
        !is_space(s.last()),
    ensures
        tokens(s).len() > 0,
    decreases s.len(),
{
    if s.len() > 1 && !is_space(s[s.len() - 2]) {
        assert(s.drop_last().last() == s[s.len() - 2]);
        lemma_tokens_nonempty(s.drop_last());
    }
}

/// Every token that `tokens` gives is a token.
pub proof fn lemma_tokens_are_tokens(s: Seq<char>)
    ensures
        all_tokens(tokens(s)),
    decreases s.len(),
{
    if s.len() > 0 {
        lemma_tokens_are_tokens(s.drop_last());
        let prev = tokens(s.drop_last());
        let c = s.last();
        if !is_space(c) && s.len() > 1 && !is_space(s[s.len() - 2]) {
            assert(s.drop_last().last() == s[s.len() - 2]);
            lemma_tokens_nonempty(s.drop_last());
            let w = prev.last().push(c);
            assert(is_token(prev[prev.len() - 1]));
            assert forall|i: int| 0 <= i < w.len() implies !is_space(#[trigger] w[i]) by {
                if i < w.len() - 1 {
                    assert(w[i] == prev.last()[i]);
                }
            }
        }
    }
}

/// Tokens on either side of a space are tokenized apart.
pub proof fn lemma_tokens_concat(a: Seq<char>, b: Seq<char>)
    ensures
        tokens(a + seq![' '] + b) == tokens(a) + tokens(b),
    decreases b.len(),
{
    let s = a + seq![' '] + b;
    if b.len() == 0 {
        assert(s.drop_last() =~= a);
        assert(tokens(a) + tokens(b) =~= tokens(a));
    } else {
        let b2 = b.drop_last();
        assert(s.drop_last() =~= a + seq![' '] + b2);
        lemma_tokens_concat(a, b2);
        let c = b.last();
        assert(s.last() == c);
        if !is_space(c) {
            if b.len() > 1 {
                assert(s[s.len() - 2] == b[b.len() - 2]);
                if !is_space(b[b.len() - 2]) {
                    assert(b2.last() == b[b.len() - 2]);
                    lemma_tokens_nonempty(b2);
                }
            } else {
                assert(s[s.len() - 2] == ' ');
                assert(b2.len() == 0);
            }
        }
        assert(tokens(s) =~= tokens(a) + tokens(b));
    }
}

proof fn lemma_tokens_of_token(w: Seq<char>)
    requires
        is_token(w),
    ensures
        tokens(w) == seq![w],
    decreases w.len(),
{
    if w.len() == 1 {
        assert(w.drop_last() =~= Seq::<char>::empty());
        assert(tokens(w.drop_last()) =~= Seq::<Seq<char>>::empty());
        assert(!is_space(w[0]));
        assert(seq![w.last()] =~= w);
        assert(tokens(w) =~= seq![w]);
    } else {
        let w2 = w.drop_last();
        assert(w2.len() > 0 && forall|i: int| 0 <= i < w2.len() ==> w2[i] == w[i]);
        lemma_tokens_of_token(w2);
        assert(!is_space(w[w.len() - 2]));
        assert(w2.push(w.last()) =~= w);
        assert(tokens(w) =~= seq![w]);
    }
}

/// Tokens joined by single spaces tokenize back to themselves.
pub proof fn lemma_tokens_of_join(ws: Seq<Seq<char>>)
    requires
        all_tokens(ws),
    ensures
        tokens(join_spaced(ws)) == ws,
        ws.len() > 0 ==> join_spaced(ws).len() > 0,
    decreases ws.len(),
{
    if ws.len() == 0 {
        assert(tokens(join_spaced(ws)) =~= ws);
    } else if ws.len() == 1 {
        assert(is_token(ws[0]));
        lemma_tokens_of_token(ws[0]);
        assert(seq![ws[0]] =~= ws);
    } else {
        let w2 = ws.drop_last();
        assert(all_tokens(w2)) by {
            assert forall|i: int| 0 <= i < w2.len() implies is_token(#[trigger] w2[i]) by {
                assert(w2[i] == ws[i]);
            }
        }
        lemma_tokens_of_join(w2);
        assert(is_token(ws[ws.len() - 1]));
        lemma_tokens_of_token(ws.last());
        lemma_tokens_concat(join_spaced(w2), ws.last());
        assert(w2 + seq![ws.last()] =~= ws);
    }
}

#[allow(non_camel_case_types)]
pub enum Command {
    SET { key: String, value: String },
    GET { key: String },
    Invalid { message: String },
}

impl View for Command {
    type V = CommandModel;

    open spec fn view(&self) -> CommandModel {
        match self {
            Command::SET { key, value } => CommandModel::Write { key: key@, value: value@ },
            Command::GET { key } => CommandModel::Read { key: key@ },
            Command::Invalid { message } => CommandModel::Invalid { message: message@ },
        }
    }
}

/// Splits `s` into its whitespace-separated tokens.
pub fn split_tokens(s: &Vec<char>) -> (r: Vec<Vec<char>>)
    ensures
        r@.map_values(|w: Vec<char>| w@) == tokens(s@),
{
    let mut done: Vec<Vec<char>> = Vec::new();
    let mut cur: Vec<char> = Vec::new();
    let mut in_word = false;
    let mut i: usize = 0;
    while i < s.len()
        invariant
            i <= s.len(),
            in_word == (i > 0 && !is_space(s@[i - 1])),
            in_word ==> tokens(s@.take(i as int)) == done@.map_values(|w: Vec<char>| w@).push(
                cur@,
            ),
            !in_word ==> tokens(s@.take(i as int)) == done@.map_values(|w: Vec<char>| w@),
            !in_word ==> cur@.len() == 0,
        decreases s.len() - i,
    {
        let c = s[i];
        let ghost pre = s@.take(i as int);
        assert(s@.take(i + 1).drop_last() =~= pre);
        assert(s@.take(i + 1).last() == c);
        if is_space_char(c) {
            if in_word {
                let w = cur;
                cur = Vec::new();
                done.push(w);
                assert(done@.map_values(|w: Vec<char>| w@) =~= tokens(pre));
            }
            in_word = false;
        } else {
            cur.push(c);
            if !in_word {
                assert(cur@ =~= seq![c]);
            }
            in_word = true;
            if i > 0 {
                assert(s@.take(i + 1)[i - 1] == s@[i - 1]);
            }
        }
        i = i + 1;
    }
    if in_word {
        done.push(cur);
    }
    assert(s@.take(s@.len() as int) =~= s@);
    assert(done@.map_values(|w: Vec<char>| w@) =~= tokens(s@));
    done
}

/// Whether `w` spells the three letters `a`, `b`, `c`.
fn spells(w: &Vec<char>, a: char, b: char, c: char) -> (r: bool)
    ensures
        r == (w@ == seq![a, b, c]),
{
    let r = w.len() == 3 && w[0] == a && w[1] == b && w[2] == c;
    if r {
        assert(w@ =~= seq![a, b, c]);
    }
    r
}

/// Joins `ws[from..]` with single spaces.
fn join_from(ws: &Vec<Vec<char>>, from: usize) -> (r: Vec<char>)
    requires
        from <= ws.len(),
    ensures
        r@ == join_spaced(ws@.map_values(|w: Vec<char>| w@).subrange(from as int, ws.len() as int)),
{
    let ghost all = ws@.map_values(|w: Vec<char>| w@);
    let mut r: Vec<char> = Vec::new();
    let mut i: usize = from;
    while i < ws.len()
        invariant
            from <= i <= ws.len(),
            all == ws@.map_values(|w: Vec<char>| w@),
            r@ == join_spaced(all.subrange(from as int, i as int)),
        decreases ws.len() - i,
    {
        let ghost before = all.subrange(from as int, i as int);
        assert(all.subrange(from as int, i + 1).drop_last() =~= before);
        if i > from {
            r.push(' ');
        } else {
            assert(all.subrange(from as int, i + 1) =~= seq![ws@[i as int]@]);
        }
        let w = &ws[i];
        let mut j: usize = 0;
        let ghost base = r@;
        while j < w.len()
            invariant
                j <= w.len(),
                r@ == base + w@.take(j as int),
            decreases w.len() - j,
        {
            r.push(w[j]);
            assert(w@.take(j + 1) =~= w@.take(j as int).push(w@[j as int]));
            assert(r@ =~= base + w@.take(j + 1));
            j = j + 1;
        }
        assert(w@.take(j as int) =~= w@);
        proof {
            if i > from {
                assert(r@ =~= join_spaced(before) + seq![' '] + w@);
            } else {
                assert(r@ =~= w@);
            }
        }
        i = i + 1;
    }
    r
}

impl Command {
    /// Parses one request line.
    pub fn from_input(input: &str) -> (r: Command)
        ensures
            r@ == parse(input@),
    {
        let cs = chars_of(input);
        let parts = split_tokens(&cs);
        let ghost t = parts@.map_values(|w: Vec<char>| w@);
        if parts.len() == 0 {
            return Command::Invalid { message: "Empty command".to_owned() };
        }
        if parts.len() == 1 {
            return Command::Invalid { message: "Key expected".to_owned() };
        }
        assert(t[0] == parts@[0]@ && t[1] == parts@[1]@);
        if spells(&parts[0], 'S', 'E', 'T') {
            let value = join_from(&parts, 2);
            if value.len() == 0 {
                return Command::Invalid { message: "Value expected".to_owned() };
            }
            Command::SET { key: string_from_chars(&parts[1]), value: string_from_chars(&value) }
        } else if spells(&parts[0], 'G', 'E', 'T') {
            Command::GET { key: string_from_chars(&parts[1]) }
        } else {
            Command::Invalid { message: "Unknown Command".to_owned() }
        }
    }
}

} // verus!
