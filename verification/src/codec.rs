//! The durable snapshot format, owned entirely by this crate: each entry is
//! written as `key ':' payload ';'`, with '\\', ':' and ';' inside a key or
//! payload preceded by a '\\'. Decoding is exact: any text that this encoding
//! cannot have produced is rejected as corrupt rather than read partially.

use vstd::prelude::*;
use vstd::string::StrSliceExecFns;
use crate::errors::DatabaseError;
use crate::store::pair_views;
use crate::strutil::chars_to_string;
use crate::value::Value;

verus! {

/// The characters that carry structure and are therefore escaped.
pub open spec fn is_special(c: char) -> bool {
    c == '\\' || c == ':' || c == ';'
}

/// One character as it appears inside an encoded key or payload.
pub open spec fn escape_char(c: char) -> Seq<char> {
    if is_special(c) {
        seq!['\\', c]
    } else {
        seq![c]
    }
}

/// A key or payload as it appears in the encoding.
pub open spec fn escape(s: Seq<char>) -> Seq<char>
    decreases s.len(),
{
    if s.len() == 0 {
        Seq::empty()
    } else {
        escape_char(s[0]) + escape(s.drop_first())
    }
}

/// One encoded entry.
pub open spec fn encode_entry(k: Seq<char>, v: Seq<char>) -> Seq<char> {
    escape(k) + seq![':'] + escape(v) + seq![';']
}

/// A whole snapshot: the entries encoded in order.
pub open spec fn encode_entries(es: Seq<(Seq<char>, Seq<char>)>) -> Seq<char>
    decreases es.len(),
{
    if es.len() == 0 {
        Seq::empty()
    } else {
        encode_entry(es[0].0, es[0].1) + encode_entries(es.drop_first())
    }
}

/// The decoder, one character at a time: `cur` is the token being read, `key`
/// the key of the entry being read once its ':' has passed, `acc` the entries
/// finished so far. Any text the encoder cannot have produced ends in `None`.
pub open spec fn decode_step(
    s: Seq<char>,
    cur: Seq<char>,
    key: Option<Seq<char>>,
    acc: Seq<(Seq<char>, Seq<char>)>,
) -> Option<Seq<(Seq<char>, Seq<char>)>>
    decreases s.len(),
{
    if s.len() == 0 {
        if cur.len() == 0 && key is None {
            Some(acc)
        } else {
            None
        }
    } else if s[0] == '\\' {
        if s.len() >= 2 && is_special(s[1]) {
            decode_step(s.skip(2), cur.push(s[1]), key, acc)
        } else {
            None
        }
    } else if s[0] == ':' {
        if key is None {
            decode_step(s.skip(1), Seq::empty(), Some(cur), acc)
        } else {
            None
        }
    } else if s[0] == ';' {
        if key is Some {
            decode_step(s.skip(1), Seq::empty(), None, acc.push((key->0, cur)))
        } else {
            None
        }
    } else {
        decode_step(s.skip(1), cur.push(s[0]), key, acc)
    }
}

/// What a snapshot text denotes: the entries it encodes, or nothing if it is
/// not a snapshot.
pub open spec fn decode_entries(s: Seq<char>) -> Option<Seq<(Seq<char>, Seq<char>)>> {
    decode_step(s, Seq::empty(), None, Seq::empty())
}

/// Escaping distributes over appending one character.
pub proof fn lemma_escape_snoc(s: Seq<char>, c: char)
    ensures
        escape(s.push(c)) == escape(s) + escape_char(c),
    decreases s.len(),
{
    if s.len() == 0 {
        assert(s.push(c)[0] == c);
        assert(s.push(c).drop_first() =~= Seq::<char>::empty());
        assert(escape(s.push(c)) == escape_char(c) + escape(Seq::<char>::empty()));
        assert(escape(s.push(c)) =~= escape(s) + escape_char(c));
    } else {
        assert(s.push(c)[0] == s[0]);
        assert(s.push(c).drop_first() =~= s.drop_first().push(c));
        lemma_escape_snoc(s.drop_first(), c);
        assert(escape(s.push(c)) =~= escape(s) + escape_char(c));
    }
}

/// Encoding distributes over appending one entry.
pub proof fn lemma_encode_entries_snoc(es: Seq<(Seq<char>, Seq<char>)>, k: Seq<char>, v: Seq<char>)
    ensures
        encode_entries(es.push((k, v))) == encode_entries(es) + encode_entry(k, v),
    decreases es.len(),
{
    if es.len() == 0 {
        assert(es.push((k, v))[0] == (k, v));
        assert(es.push((k, v)).drop_first() =~= Seq::<(Seq<char>, Seq<char>)>::empty());
        assert(encode_entries(es.push((k, v))) == encode_entry(k, v) + encode_entries(
            Seq::<(Seq<char>, Seq<char>)>::empty(),
        ));
        assert(encode_entries(es.push((k, v))) =~= encode_entries(es) + encode_entry(k, v));
    } else {
        assert(es.push((k, v))[0] == es[0]);
        assert(es.push((k, v)).drop_first() =~= es.drop_first().push((k, v)));
        lemma_encode_entries_snoc(es.drop_first(), k, v);
        assert(encode_entries(es.push((k, v))) =~= encode_entries(es) + encode_entry(k, v));
    }
}

/// Reading an escaped text moves it, unescaped, into the current token.
proof fn lemma_decode_escaped(
    s: Seq<char>,
    t: Seq<char>,
    cur: Seq<char>,
    key: Option<Seq<char>>,
    acc: Seq<(Seq<char>, Seq<char>)>,
)
    ensures
        decode_step(escape(s) + t, cur, key, acc) == decode_step(t, cur + s, key, acc),
    decreases s.len(),
{
    if s.len() == 0 {
        assert(escape(s) + t =~= t);
        assert(cur + s =~= cur);
    } else {
        let c = s[0];
        let rest = s.drop_first();
        let w = escape(s) + t;
        if is_special(c) {
            assert(w =~= seq!['\\', c] + (escape(rest) + t));
            assert(w[0] == '\\');
            assert(w[1] == c);
            assert(w.skip(2) =~= escape(rest) + t);
            lemma_decode_escaped(rest, t, cur.push(c), key, acc);
            assert(cur.push(c) + rest =~= cur + s);
        } else {
            assert(w =~= seq![c] + (escape(rest) + t));
            assert(w[0] == c);
            assert(w.skip(1) =~= escape(rest) + t);
            lemma_decode_escaped(rest, t, cur.push(c), key, acc);
            assert(cur.push(c) + rest =~= cur + s);
        }
    }
}

/// The decoder, run over an encoded snapshot, finishes every encoded entry.
proof fn lemma_decode_encoded(es: Seq<(Seq<char>, Seq<char>)>, acc: Seq<(Seq<char>, Seq<char>)>)
    ensures
        decode_step(encode_entries(es), Seq::empty(), None, acc) == Some(acc + es),
    decreases es.len(),
{
    if es.len() == 0 {
        assert(acc + es =~= acc);
    } else {
        let k = es[0].0;
        let v = es[0].1;
        let rest = es.drop_first();
        let t1 = seq![':'] + escape(v) + seq![';'] + encode_entries(rest);
        assert(encode_entries(es) =~= escape(k) + t1);
        lemma_decode_escaped(k, t1, Seq::empty(), None, acc);
        assert(Seq::<char>::empty() + k =~= k);
        assert(t1[0] == ':');
        let t2 = seq![';'] + encode_entries(rest);
        assert(t1.skip(1) =~= escape(v) + t2);
        lemma_decode_escaped(v, t2, Seq::empty(), Some(k), acc);
        assert(Seq::<char>::empty() + v =~= v);
        assert(t2[0] == ';');
        assert(t2.skip(1) =~= encode_entries(rest));
        lemma_decode_encoded(rest, acc.push((k, v)));
        assert(acc.push((k, v)) + rest =~= acc + es);
    }
}

/// Round trip: decoding an encoded snapshot yields exactly the entries that
/// were encoded, for every sequence of entries.
pub proof fn lemma_round_trip(es: Seq<(Seq<char>, Seq<char>)>)
    ensures
        decode_entries(encode_entries(es)) == Some(es),
{
    lemma_decode_encoded(es, Seq::empty());
    assert(Seq::<(Seq<char>, Seq<char>)>::empty() + es =~= es);
}

/// Empty snapshot text decodes to the empty contents: a destination that does
/// not exist yet, read as empty text, yields an empty store and no error.
pub proof fn lemma_empty_decodes_empty()
    ensures
        decode_entries(Seq::<char>::empty()) == Some(Seq::<(Seq<char>, Seq<char>)>::empty()),
{
}

/// Appends the escaped form of `s` to `out`.
fn push_escaped(out: &mut Vec<char>, s: &str)
    ensures
        final(out)@ == old(out)@ + escape(s@),
{
    let n = s.unicode_len();
    let mut j: usize = 0;
    while j < n
        invariant
            n == s@.len(),
            j <= n,
            out@ == old(out)@ + escape(s@.take(j as int)),
        decreases n - j,
    {
        let c = s.get_char(j);
        if c == '\\' || c == ':' || c == ';' {
            out.push('\\');
        }
        out.push(c);
        proof {
            lemma_escape_snoc(s@.take(j as int), c);
            assert(s@.take(j + 1) =~= s@.take(j as int).push(c));
            assert(out@ =~= old(out)@ + escape(s@.take(j + 1)));
        }
        j += 1;
    }
    proof {
        assert(s@.take(n as int) =~= s@);
    }
}

/// Encodes a snapshot of entries for persistence.
pub fn encode(entries: &Vec<(String, Value)>) -> (out: Vec<char>)
    ensures
        out@ == encode_entries(pair_views(entries@)),
{
    let ghost evs = pair_views(entries@);
    let mut out: Vec<char> = Vec::new();
    proof {
        assert(evs.take(0) =~= Seq::<(Seq<char>, Seq<char>)>::empty());
        assert(out@ =~= encode_entries(evs.take(0)));
    }
    let mut i: usize = 0;
    while i < entries.len()
        invariant
            evs == pair_views(entries@),
            evs.len() == entries@.len(),
            i <= entries.len(),
            out@ == encode_entries(evs.take(i as int)),
        decreases entries.len() - i,
    {
        let ghost before = out@;
        push_escaped(&mut out, entries[i].0.as_str());
        out.push(':');
        push_escaped(&mut out, entries[i].1.data.as_str());
        out.push(';');
        proof {
            lemma_encode_entries_snoc(evs.take(i as int), evs[i as int].0, evs[i as int].1);
            assert(evs.take(i + 1) =~= evs.take(i as int).push(evs[i as int]));
            assert(out@ =~= before + encode_entry(evs[i as int].0, evs[i as int].1));
        }
        i += 1;
    }
    proof {
        assert(evs.take(entries@.len() as int) =~= evs);
    }
    out
}

/// The view of an optional key already read.
spec fn opt_str_view(k: Option<String>) -> Option<Seq<char>> {
    match k {
        Some(s) => Some(s@),
        None => None,
    }
}

/// Decodes a persisted snapshot. Text that the encoder cannot have produced
/// fails with `CorruptData`; no entries are handed out in that case.
pub fn decode(s: &str) -> (r: Result<Vec<(String, Value)>, DatabaseError>)
    ensures
        match r {
            Ok(es) => decode_entries(s@) == Some(pair_views(es@)),
            Err(e) => decode_entries(s@) is None && e == DatabaseError::CorruptData,
        },
{
    let n = s.unicode_len();
    let mut i: usize = 0;
    let mut cur: Vec<char> = Vec::new();
    let mut key: Option<String> = None;
    let mut out: Vec<(String, Value)> = Vec::new();
    proof {
        assert(s@.skip(0) =~= s@);
        assert(pair_views(out@) =~= Seq::<(Seq<char>, Seq<char>)>::empty());
    }
    while i < n
        invariant
            n == s@.len(),
            i <= n,
            decode_step(s@.skip(i as int), cur@, opt_str_view(key), pair_views(out@))
                == decode_entries(s@),
        decreases n - i,
    {
        let ghost w = s@.skip(i as int);
        proof {
            assert(w[0] == s@[i as int]);
        }
        let c = s.get_char(i);
        if c == '\\' {
            if i + 1 == n {
                proof {
                    assert(w.len() == 1);
                }
                return Err(DatabaseError::CorruptData);
            }
            proof {
                assert(w[1] == s@[i + 1]);
            }
            let c2 = s.get_char(i + 1);
            if c2 == '\\' || c2 == ':' || c2 == ';' {
                cur.push(c2);
                proof {
                    assert(s@.skip(i + 2) =~= w.skip(2));
                }
                i += 2;
            } else {
                return Err(DatabaseError::CorruptData);
            }
        } else if c == ':' {
            match key {
                None => {
                    let k = chars_to_string(&cur);
                    key = Some(k);
                    cur = Vec::new();
                    proof {
                        assert(s@.skip(i + 1) =~= w.skip(1));
                    }
                    i += 1;
                },
                Some(_) => {
                    return Err(DatabaseError::CorruptData);
                },
            }
        } else if c == ';' {
            match key {
                Some(k) => {
                    let ghost out_pre = pair_views(out@);
                    let v = Value { data: chars_to_string(&cur) };
                    out.push((k, v));
                    key = None;
                    cur = Vec::new();
                    proof {
                        assert(pair_views(out@) =~= out_pre.push((out@.last().0@, out@.last().1@)));
                        assert(s@.skip(i + 1) =~= w.skip(1));
                    }
                    i += 1;
                },
                None => {
                    return Err(DatabaseError::CorruptData);
                },
            }
        } else {
            cur.push(c);
            proof {
                assert(s@.skip(i + 1) =~= w.skip(1));
            }
            i += 1;
        }
    }
    proof {
        assert(s@.skip(n as int) =~= Seq::<char>::empty());
    }
    if !cur.is_empty() {
        return Err(DatabaseError::CorruptData);
    }
    match key {
        Some(_) => Err(DatabaseError::CorruptData),
        None => Ok(out),
    }
}

} // verus!
