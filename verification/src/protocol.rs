//! The reader worker's frame model, and the subprotocol negotiation
//! performed during the opening handshake: the client's comma-separated
//! offer is split and trimmed, and the first offered name that appears
//! in the server's whitelist wins; no match means no subprotocol.

use vstd::prelude::*;
use vstd::string::{StrSliceExecFns, StringExecFns};

verus! {

/// One decoded inbound frame, as the reader worker sees it. The event
/// model does not distinguish text from binary, so both carry raw bytes.
#[derive(Debug)]
pub enum Frame {
    Binary(Vec<u8>),
    Text(Vec<u8>),
    Ping(Vec<u8>),
    Pong,
    Close,
}

/// What the reader worker must do after handing one frame to the core.
#[derive(Debug)]
pub enum ReaderAction {
    /// Keep reading.
    Continue,
    /// Reply with a Pong carrying the given payload, then keep reading.
    SendPong(Vec<u8>),
    /// Leave the read loop and tear the connection down.
    Stop,
}

/// The whitespace stripped around each offered name.
pub open spec fn is_sep_ws(c: char) -> bool {
    c == ' ' || c == '\t' || c == '\r' || c == '\n'
}

/// A string without its leading whitespace.
pub open spec fn trim_start_spec(s: Seq<char>) -> Seq<char>
    decreases s.len(),
{
    if s.len() > 0 && is_sep_ws(s[0]) {
        trim_start_spec(s.drop_first())
    } else {
        s
    }
}

/// A string without its trailing whitespace.
pub open spec fn trim_end_spec(s: Seq<char>) -> Seq<char>
    decreases s.len(),
{
    if s.len() > 0 && is_sep_ws(s.last()) {
        trim_end_spec(s.drop_last())
    } else {
        s
    }
}

/// A string without whitespace on either side.
pub open spec fn trim_spec(s: Seq<char>) -> Seq<char> {
    trim_end_spec(trim_start_spec(s))
}

/// The comma-separated pieces of a string, in order; an empty string is
/// one empty piece, and every comma starts a new piece.
pub open spec fn split_commas(s: Seq<char>) -> Seq<Seq<char>>
    decreases s.len(),
{
    if s.len() == 0 {
        seq![Seq::empty()]
    } else if s.last() == ',' {
        split_commas(s.drop_last()).push(Seq::empty())
    } else {
        let r = split_commas(s.drop_last());
        r.update(r.len() - 1, r.last().push(s.last()))
    }
}

/// Splitting always yields at least one piece.
pub proof fn lemma_split_nonempty(s: Seq<char>)
    ensures
        split_commas(s).len() >= 1,
    decreases s.len(),
{
    if s.len() > 0 {
        lemma_split_nonempty(s.drop_last());
    }
}

/// Each piece trimmed, in order.
pub open spec fn trimmed_views(ts: Seq<Seq<char>>) -> Seq<Seq<char>>
    decreases ts.len(),
{
    if ts.len() == 0 {
        Seq::empty()
    } else {
        trimmed_views(ts.drop_last()).push(trim_spec(ts.last()))
    }
}

/// Trimming keeps the count and goes piece by piece.
pub proof fn lemma_trimmed_views(ts: Seq<Seq<char>>)
    ensures
        trimmed_views(ts).len() == ts.len(),
        forall|i: int| 0 <= i < ts.len() ==> trimmed_views(ts)[i] == trim_spec(#[trigger] ts[i]),
    decreases ts.len(),
{
    if ts.len() > 0 {
        lemma_trimmed_views(ts.drop_last());
        assert forall|i: int| 0 <= i < ts.len() implies trimmed_views(ts)[i] == trim_spec(
            #[trigger] ts[i],
        ) by {
            if i < ts.len() - 1 {
                assert(trimmed_views(ts)[i] == trimmed_views(ts.drop_last())[i]);
                assert(ts.drop_last()[i] == ts[i]);
            } else {
                assert(ts.last() == ts[i]);
            }
        }
    }
}

/// The names a client offered, in its order, each trimmed.
pub open spec fn client_tokens(header: Seq<char>) -> Seq<Seq<char>> {
    trimmed_views(split_commas(header))
}

/// The views of a vector of strings.
pub open spec fn string_views(v: Seq<String>) -> Seq<Seq<char>> {
    v.map_values(|s: String| s@)
}

/// The first token that the whitelist also holds, if any.
pub open spec fn first_match(tokens: Seq<Seq<char>>, wl: Seq<Seq<char>>) -> Option<Seq<char>>
    decreases tokens.len(),
{
    if tokens.len() == 0 {
        None
    } else if wl.contains(tokens.first()) {
        Some(tokens.first())
    } else {
        first_match(tokens.drop_first(), wl)
    }
}

/// What subprotocol the handshake selects: the first name the client
/// offered that also stands in the whitelist, or none.
pub open spec fn negotiated(header: Seq<char>, wl: Seq<Seq<char>>) -> Option<Seq<char>> {
    first_match(client_tokens(header), wl)
}

/// The pieces that are not empty, in order.
pub open spec fn keep_nonempty(ts: Seq<Seq<char>>) -> Seq<Seq<char>>
    decreases ts.len(),
{
    if ts.len() == 0 {
        Seq::empty()
    } else {
        let rest = keep_nonempty(ts.drop_last());
        if ts.last().len() > 0 {
            rest.push(ts.last())
        } else {
            rest
        }
    }
}

/// The offered names that are not empty after trimming.
pub open spec fn nonempty_tokens(s: Seq<char>) -> Seq<Seq<char>> {
    keep_nonempty(client_tokens(s))
}

/// Whether a character is separator whitespace.
fn is_ws_char(c: char) -> (r: bool)
    ensures
        r == is_sep_ws(c),
{
    c == ' ' || c == '\t' || c == '\r' || c == '\n'
}

/// Strips whitespace from both ends of a string.
fn trim_str(t: &str) -> (r: String)
    ensures
        r@ == trim_spec(t@),
{
    let n = t.unicode_len();
    proof {
        assert(t@ =~= t@.subrange(0, n as int));
    }
    let mut a: usize = 0;
    while a < n && is_ws_char(t.get_char(a))
        invariant
            a <= n,
            n == t@.len(),
            trim_start_spec(t@) == trim_start_spec(t@.subrange(a as int, n as int)),
        decreases n - a,
    {
        proof {
            let sub = t@.subrange(a as int, n as int);
            assert(sub[0] == t@[a as int]);
            assert(sub.drop_first() =~= t@.subrange(a as int + 1, n as int));
        }
        a = a + 1;
    }
    proof {
        let sub = t@.subrange(a as int, n as int);
        if a < n {
            assert(sub[0] == t@[a as int]);
        }
        assert(trim_start_spec(sub) == sub);
    }
    let mut b: usize = n;
    while b > a && is_ws_char(t.get_char(b - 1))
        invariant
            a <= b <= n,
            n == t@.len(),
            trim_end_spec(t@.subrange(a as int, n as int)) == trim_end_spec(
                t@.subrange(a as int, b as int),
            ),
        decreases b,
    {
        proof {
            let sub = t@.subrange(a as int, b as int);
            assert(sub.last() == t@[b as int - 1]);
            assert(sub.drop_last() =~= t@.subrange(a as int, b as int - 1));
        }
        b = b - 1;
    }
    proof {
        let sub = t@.subrange(a as int, b as int);
        if b > a {
            assert(sub.last() == t@[b as int - 1]);
        }
        assert(trim_end_spec(sub) == sub);
    }
    let r = t.substring_char(a, b).to_owned();
    proof {
        assert(r@ == trim_spec(t@));
    }
    r
}

/// Splits a header on commas and trims each piece, in client order.
fn split_and_trim(header: &str) -> (toks: Vec<String>)
    ensures
        string_views(toks@) == client_tokens(header@),
{
    let n = header.unicode_len();
    let mut toks: Vec<String> = Vec::new();
    let mut start: usize = 0;
    let mut i: usize = 0;
    proof {
        assert(header@.take(0) =~= Seq::<char>::empty());
        assert(split_commas(header@.take(0)) =~= seq![Seq::<char>::empty()]);
    }
    while i < n
        invariant
            start <= i <= n,
            n == header@.len(),
            split_commas(header@.take(i as int)).len() >= 1,
            split_commas(header@.take(i as int)).last() == header@.subrange(
                start as int,
                i as int,
            ),
            string_views(toks@) == trimmed_views(
                split_commas(header@.take(i as int)).drop_last(),
            ),
        decreases n - i,
    {
        let ghost pre_split = split_commas(header@.take(i as int));
        let c = header.get_char(i);
        proof {
            assert(header@.take(i as int + 1).drop_last() =~= header@.take(i as int));
            assert(header@.take(i as int + 1).last() == header@[i as int]);
            lemma_split_nonempty(header@.take(i as int + 1));
        }
        if c == ',' {
            let tok = trim_str(header.substring_char(start, i));
            toks.push(tok);
            proof {
                let post_split = split_commas(header@.take(i as int + 1));
                assert(post_split == pre_split.push(Seq::<char>::empty()));
                assert(post_split.drop_last() =~= pre_split);
                lemma_trimmed_views(pre_split);
                lemma_trimmed_views(pre_split.drop_last());
                assert(string_views(toks@) =~= trimmed_views(pre_split));
                assert(trimmed_views(post_split.drop_last()) =~= trimmed_views(pre_split));
                assert(post_split.last() =~= header@.subrange(i as int + 1, i as int + 1));
            }
            start = i + 1;
        } else {
            proof {
                let post_split = split_commas(header@.take(i as int + 1));
                assert(post_split == pre_split.update(
                    pre_split.len() - 1,
                    pre_split.last().push(header@[i as int]),
                ));
                assert(post_split.drop_last() =~= pre_split.drop_last());
                assert(post_split.last() == pre_split.last().push(header@[i as int]));
                assert(pre_split.last().push(header@[i as int]) =~= header@.subrange(
                    start as int,
                    i as int + 1,
                ));
            }
        }
        i = i + 1;
    }
    let tok = trim_str(header.substring_char(start, n));
    toks.push(tok);
    proof {
        assert(header@.take(n as int) =~= header@);
        let split = split_commas(header@);
        lemma_split_nonempty(header@);
        lemma_trimmed_views(split);
        lemma_trimmed_views(split.drop_last());
        assert(string_views(toks@) =~= trimmed_views(split));
        assert(string_views(toks@) == client_tokens(header@));
    }
    toks
}

/// Whether a token stands in the whitelist.
fn in_whitelist(tok: &String, wl: &Vec<String>) -> (r: bool)
    ensures
        r == string_views(wl@).contains(tok@),
{
    let mut i: usize = 0;
    while i < wl.len()
        invariant
            i <= wl.len(),
            forall|k: int| 0 <= k < i ==> (#[trigger] string_views(wl@)[k]) != tok@,
        decreases wl.len() - i,
    {
        if wl[i].eq(tok) {
            proof {
                assert(string_views(wl@)[i as int] == tok@);
            }
            return true;
        }
        i = i + 1;
    }
    proof {
        if string_views(wl@).contains(tok@) {
            let k = choose|k: int|
                0 <= k < string_views(wl@).len() && string_views(wl@)[k] == tok@;
            assert(false);
        }
    }
    false
}

/// Picks the subprotocol for one handshake: the first name the client
/// offered, in the client's order, that also appears in the server's
/// whitelist; none when nothing matches.
pub fn negotiate_subprotocol(header: &str, whitelist: &Vec<String>) -> (r: Option<String>)
    ensures
        match r {
            Some(p) => negotiated(header@, string_views(whitelist@)) == Some(p@),
            None => negotiated(header@, string_views(whitelist@)) is None,
        },
{
    let toks = split_and_trim(header);
    let ghost all = client_tokens(header@);
    let ghost wl = string_views(whitelist@);
    proof {
        assert(all.skip(0) =~= all);
    }
    let mut i: usize = 0;
    while i < toks.len()
        invariant
            i <= toks.len(),
            string_views(toks@) == all,
            all == client_tokens(header@),
            wl == string_views(whitelist@),
            first_match(all, wl) == first_match(all.skip(i as int), wl),
        decreases toks.len() - i,
    {
        let hit = in_whitelist(&toks[i], whitelist);
        proof {
            assert(all.skip(i as int).first() == string_views(toks@)[i as int]);
            assert(string_views(toks@)[i as int] == toks@[i as int]@);
        }
        if hit {
            let p = toks[i].clone();
            proof {
                assert(first_match(all.skip(i as int), wl) == Some(toks@[i as int]@));
            }
            return Some(p);
        }
        proof {
            assert(all.skip(i as int).drop_first() =~= all.skip(i as int + 1));
        }
        i = i + 1;
    }
    proof {
        assert(all.skip(toks@.len() as int).len() == 0);
    }
    None
}

/// Parses a comma-separated whitelist as the host hands it over: split
/// on commas, trim each name, drop the empty ones, keep the order.
pub fn parse_subprotocols(s: &str) -> (r: Vec<String>)
    ensures
        string_views(r@) == nonempty_tokens(s@),
{
    let toks = split_and_trim(s);
    let ghost all = client_tokens(s@);
    let mut out: Vec<String> = Vec::new();
    let mut i: usize = 0;
    proof {
        assert(all.take(0) =~= Seq::<Seq<char>>::empty());
        assert(string_views(out@) =~= keep_nonempty(all.take(0)));
    }
    while i < toks.len()
        invariant
            i <= toks.len(),
            string_views(toks@) == all,
            string_views(out@) == keep_nonempty(all.take(i as int)),
        decreases toks.len() - i,
    {
        let keep = !toks[i].as_str().is_empty();
        proof {
            assert(all.take(i as int + 1).drop_last() =~= all.take(i as int));
            assert(all.take(i as int + 1).last() == all[i as int]);
            assert(all[i as int] == toks@[i as int]@);
        }
        if keep {
            let p = toks[i].clone();
            out.push(p);
            proof {
                assert(string_views(out@) =~= keep_nonempty(all.take(i as int)).push(
                    all[i as int],
                ));
            }
        }
        i = i + 1;
    }
    proof {
        assert(all.take(toks@.len() as int) =~= all);
    }
    out
}

} // verus!
