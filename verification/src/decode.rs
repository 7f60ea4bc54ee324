//! Framing and parsing of the textual request stream.
//!
//! The wire format is a stream of records, each `{"k":"v",...}` with
//! string-valued fields and no quote character inside a key or value,
//! separated by a single space — a delimiter the protocol guarantees never
//! appears inside a well-formed request record. The decoder accumulates
//! bytes across reads, splits eagerly on every delimiter, ignores empty
//! units from consecutive delimiters, and parses each unit into one of the
//! three recognized requests.

use vstd::prelude::*;
use crate::text::{dec_val, is_dec, parse_dec, push_char, str_eq};
use crate::room::entries_view;

verus! {

/// Strips the surrounding quote characters from a quoted word:
/// turns `"qwe"` into `qwe`.
pub fn de_quotes(text: &str) -> (r: String)
    requires
        text@.len() >= 2,
    ensures
        r@ == text@.subrange(1, text@.len() - 1),
{
    let n = text.unicode_len();
    text.substring_char(1, n - 1).to_owned()
}

/// Why a request unit was rejected: not a well-formed record, or a record
/// whose `path` is none of the recognized operations.
#[derive(Debug, Clone, Copy, PartialEq, Eq, Structural)]
pub enum DecodeError {
    Malformed,
    UnknownPath,
}

// ---------------------------------------------------------------------
// Framing: splitting the byte stream on the space delimiter.
// ---------------------------------------------------------------------

/// The complete (delimiter-terminated), non-empty units of a stream
/// prefix, in arrival order.
pub open spec fn feed_units(s: Seq<char>) -> Seq<Seq<char>>
    decreases s.len(),
{
    if s.len() == 0 {
        Seq::empty()
    } else if s.last() == ' ' {
        if feed_pending(s.drop_last()).len() > 0 {
            feed_units(s.drop_last()).push(feed_pending(s.drop_last()))
        } else {
            feed_units(s.drop_last())
        }
    } else {
        feed_units(s.drop_last())
    }
}

/// What remains after the last delimiter of a stream prefix: the unit
/// still being accumulated.
pub open spec fn feed_pending(s: Seq<char>) -> Seq<char>
    decreases s.len(),
{
    if s.len() == 0 {
        Seq::empty()
    } else if s.last() == ' ' {
        Seq::empty()
    } else {
        feed_pending(s.drop_last()).push(s.last())
    }
}

/// The pending remainder never holds a delimiter.
pub proof fn lemma_feed_pending_no_space(s: Seq<char>)
    ensures
        forall|i: int| 0 <= i < feed_pending(s).len() ==> feed_pending(s)[i] != ' ',
    decreases s.len(),
{
    if s.len() > 0 && s.last() != ' ' {
        lemma_feed_pending_no_space(s.drop_last());
        let p = feed_pending(s);
        assert(p == feed_pending(s.drop_last()).push(s.last()));
        assert forall|i: int| 0 <= i < p.len() implies p[i] != ' ' by {
            if i < p.len() - 1 {
                assert(p[i] == feed_pending(s.drop_last())[i]);
            } else {
                assert(p[i] == s.last());
            }
        }
    }
}

/// A delimiter-free stream prefix holds no complete unit and is wholly
/// pending.
pub proof fn lemma_feed_no_space(s: Seq<char>)
    requires
        forall|i: int| 0 <= i < s.len() ==> s[i] != ' ',
    ensures
        feed_units(s) == Seq::<Seq<char>>::empty(),
        feed_pending(s) == s,
    decreases s.len(),
{
    if s.len() > 0 {
        lemma_feed_no_space(s.drop_last());
        assert(feed_pending(s.drop_last()).push(s.last()) =~= s);
    }
}

/// Accumulates raw bytes across reads and yields each complete
/// delimiter-terminated unit as soon as it is available.
pub struct Decoder {
    pending: String,
}

impl View for Decoder {
    type V = Seq<char>;

    closed spec fn view(&self) -> Seq<char> {
        self.pending@
    }
}

impl Decoder {
    /// The accumulated remainder holds no delimiter.
    pub closed spec fn wf(&self) -> bool {
        forall|i: int| 0 <= i < self.pending@.len() ==> self.pending@[i] != ' '
    }

    /// A fresh decoder with nothing accumulated.
    pub fn new() -> (r: Decoder)
        ensures
            r.wf(),
            r@ == Seq::<char>::empty(),
    {
        Decoder { pending: String::new() }
    }

    /// Feeds one read's worth of characters: returns every unit completed
    /// by this chunk, in arrival order, and keeps the tail after the last
    /// delimiter for the next read.
    pub fn feed(&mut self, chunk: &str) -> (r: Vec<String>)
        requires
            old(self).wf(),
        ensures
            final(self).wf(),
            final(self)@ == feed_pending(old(self)@ + chunk@),
            r.deep_view() == feed_units(old(self)@ + chunk@),
    {
        let ghost oldp = self.pending@;
        let n = chunk.unicode_len();
        let mut outs: Vec<String> = Vec::new();
        let mut cur = self.pending.clone();
        proof {
            lemma_feed_no_space(oldp);
            assert(oldp + chunk@.take(0) =~= oldp);
            assert(outs.deep_view() =~= feed_units(oldp + chunk@.take(0)));
        }
        let mut j: usize = 0;
        while j < n
            invariant
                n == chunk@.len(),
                j <= n,
                cur@ == feed_pending(oldp + chunk@.take(j as int)),
                outs.deep_view() == feed_units(oldp + chunk@.take(j as int)),
            decreases n - j,
        {
            let ghost pref = oldp + chunk@.take(j as int);
            let c = chunk.get_char(j);
            proof {
                assert((oldp + chunk@.take(j + 1)).drop_last() =~= pref);
                assert((oldp + chunk@.take(j + 1)).last() == c);
            }
            if c == ' ' {
                if cur.unicode_len() > 0 {
                    let ghost preouts = outs.deep_view();
                    outs.push(cur);
                    cur = String::new();
                    proof {
                        assert(outs.deep_view() =~= preouts.push(feed_pending(pref)));
                    }
                } else {
                    proof {
                        assert(cur@ =~= Seq::<char>::empty());
                    }
                }
            } else {
                push_char(&mut cur, c);
            }
            j = j + 1;
        }
        self.pending = cur;
        proof {
            assert(oldp + chunk@.take(n as int) =~= oldp + chunk@);
            lemma_feed_pending_no_space(oldp + chunk@);
        }
        outs
    }
}

/// A stream may be cut into reads at any point: feeding the whole in two
/// chunks yields the same units, in the same order, and the same
/// remainder as feeding it at once.
pub proof fn lemma_feed_split(s: Seq<char>, t: Seq<char>)
    ensures
        feed_units(s + t) == feed_units(s) + feed_units(feed_pending(s) + t),
        feed_pending(s + t) == feed_pending(feed_pending(s) + t),
    decreases t.len(),
{
    if t.len() == 0 {
        lemma_feed_pending_no_space(s);
        lemma_feed_no_space(feed_pending(s));
        assert(s + t =~= s);
        assert(feed_pending(s) + t =~= feed_pending(s));
        assert(feed_units(s + t) =~= feed_units(s) + feed_units(feed_pending(s) + t));
    } else {
        lemma_feed_split(s, t.drop_last());
        assert((s + t).drop_last() =~= s + t.drop_last());
        assert((feed_pending(s) + t).drop_last() =~= feed_pending(s) + t.drop_last());
        assert((s + t).last() == t.last());
        assert((feed_pending(s) + t).last() == t.last());
        if t.last() == ' ' {
            if feed_pending(s + t.drop_last()).len() > 0 {
                assert(feed_units(s + t) =~= feed_units(s) + feed_units(
                    feed_pending(s) + t,
                ));
            } else {
                assert(feed_units(s + t) =~= feed_units(s) + feed_units(
                    feed_pending(s) + t,
                ));
            }
        }
    }
}

// ---------------------------------------------------------------------
// The record grammar: {"k":"v",...} with string-valued fields.
// ---------------------------------------------------------------------

/// Text that may stand inside a quoted field: no quote character.
pub open spec fn text_ok(s: Seq<char>) -> bool {
    forall|i: int| 0 <= i < s.len() ==> s[i] != '"'
}

/// Every key and value of the field list is quotable.
pub open spec fn pairs_ok(ps: Seq<(Seq<char>, Seq<char>)>) -> bool {
    forall|i: int| 0 <= i < ps.len() ==> text_ok(ps[i].0) && text_ok(ps[i].1)
}

/// One field rendered as `"k":"v"`.
pub open spec fn render_pair(p: (Seq<char>, Seq<char>)) -> Seq<char> {
    seq!['"'] + p.0 + seq!['"', ':', '"'] + p.1 + seq!['"']
}

/// A field list rendered in order, comma-separated.
pub open spec fn render_pairs(ps: Seq<(Seq<char>, Seq<char>)>) -> Seq<char>
    decreases ps.len(),
{
    if ps.len() == 0 {
        Seq::empty()
    } else if ps.len() == 1 {
        render_pair(ps[0])
    } else {
        render_pairs(ps.drop_last()) + seq![','] + render_pair(ps.last())
    }
}

/// A whole record: the field list in braces.
pub open spec fn render_record(ps: Seq<(Seq<char>, Seq<char>)>) -> Seq<char> {
    seq!['{'] + render_pairs(ps) + seq!['}']
}

/// The position of the first occurrence of `c`.
pub open spec fn first_occ(s: Seq<char>, c: char) -> Option<nat>
    decreases s.len(),
{
    if s.len() == 0 {
        None
    } else if s[0] == c {
        Some(0 as nat)
    } else {
        match first_occ(s.drop_first(), c) {
            Some(i) => Some(i + 1),
            None => None,
        }
    }
}

/// What `first_occ` finds really is the first occurrence.
pub proof fn lemma_first_occ_props(s: Seq<char>, c: char)
    ensures
        first_occ(s, c) matches Some(i) ==> i < s.len() && s[i as int] == c && forall|j: int|
            0 <= j < i ==> s[j] != c,
        first_occ(s, c) is None ==> forall|j: int| 0 <= j < s.len() ==> s[j] != c,
    decreases s.len(),
{
    if s.len() > 0 && s[0] != c {
        lemma_first_occ_props(s.drop_first(), c);
        assert(forall|j: int| 0 < j < s.len() ==> s[j] == s.drop_first()[j - 1]);
    }
}

/// A known first occurrence pins `first_occ` down.
pub proof fn lemma_first_occ_at(s: Seq<char>, c: char, i: int)
    requires
        0 <= i < s.len(),
        s[i] == c,
        forall|j: int| 0 <= j < i ==> s[j] != c,
    ensures
        first_occ(s, c) == Some(i as nat),
    decreases s.len(),
{
    if i > 0 {
        assert(s.drop_first()[i - 1] == c);
        assert(forall|j: int| 0 <= j < i - 1 ==> s.drop_first()[j] == s[j + 1]);
        lemma_first_occ_at(s.drop_first(), c, i - 1);
    }
}

/// A character that never occurs leaves `first_occ` empty.
pub proof fn lemma_first_occ_absent(s: Seq<char>, c: char)
    requires
        forall|j: int| 0 <= j < s.len() ==> s[j] != c,
    ensures
        first_occ(s, c) is None,
    decreases s.len(),
{
    if s.len() > 0 {
        assert(forall|j: int| 0 <= j < s.len() - 1 ==> s.drop_first()[j] == s[j + 1]);
        lemma_first_occ_absent(s.drop_first(), c);
    }
}

/// Parses a non-empty comma-separated field list, quoted key and value
/// each read up to the next quote; one space after a comma is tolerated,
/// as responses carry one there.
pub open spec fn parse_pairs1(s: Seq<char>) -> Option<Seq<(Seq<char>, Seq<char>)>>
    decreases s.len(),
{
    if s.len() == 0 || s[0] != '"' {
        None
    } else {
        match first_occ(s.drop_first(), '"') {
            None => None,
            Some(k) => {
                let j = 1 + k as int;
                let key = s.subrange(1, j);
                if j + 2 >= s.len() {
                    None
                } else if s[j + 1] != ':' || s[j + 2] != '"' {
                    None
                } else {
                    match first_occ(s.subrange(j + 3, s.len() as int), '"') {
                        None => None,
                        Some(m) => {
                            let q = j + 3 + m as int;
                            let val = s.subrange(j + 3, q);
                            if q + 1 == s.len() {
                                Some(seq![(key, val)])
                            } else if q + 1 < s.len() && s[q + 1] == ',' {
                                let next = if q + 2 < s.len() && s[q + 2] == ' ' {
                                    q + 3
                                } else {
                                    q + 2
                                };
                                match parse_pairs1(s.subrange(next, s.len() as int)) {
                                    None => None,
                                    Some(rest) => Some(seq![(key, val)] + rest),
                                }
                            } else {
                                None
                            }
                        },
                    }
                }
            },
        }
    }
}

/// Parses one whole record: braces around a possibly empty field list.
pub open spec fn parse_record_spec(s: Seq<char>) -> Option<Seq<(Seq<char>, Seq<char>)>> {
    if s.len() < 2 || s[0] != '{' || s.last() != '}' {
        None
    } else {
        let mid = s.subrange(1, s.len() - 1);
        if mid.len() == 0 {
            Some(Seq::empty())
        } else {
            parse_pairs1(mid)
        }
    }
}

fn first_quote(s: &str) -> (r: Option<usize>)
    ensures
        r matches Some(i) ==> first_occ(s@, '"') == Some(i as nat),
        r is None ==> first_occ(s@, '"') is None,
{
    let n = s.unicode_len();
    let mut i: usize = 0;
    while i < n
        invariant
            n == s@.len(),
            i <= n,
            forall|j: int| 0 <= j < i ==> s@[j] != '"',
        decreases n - i,
    {
        if s.get_char(i) == '"' {
            proof {
                lemma_first_occ_at(s@, '"', i as int);
            }
            return Some(i);
        }
        i = i + 1;
    }
    proof {
        lemma_first_occ_absent(s@, '"');
    }
    None
}

/// Parses a non-empty field list, exactly as `parse_pairs1` reads it.
fn parse_pairs_exec(s: &str) -> (r: Option<Vec<(String, String)>>)
    ensures
        r matches Some(v) ==> parse_pairs1(s@) matches Some(ps) && ps == entries_view(v@),
        r is None ==> parse_pairs1(s@) is None,
    decreases s@.len(),
{
    let n = s.unicode_len();
    if n == 0 {
        return None;
    }
    if s.get_char(0) != '"' {
        return None;
    }
    let rest1 = s.substring_char(1, n);
    proof {
        assert(rest1@ =~= s@.drop_first());
    }
    let k = match first_quote(rest1) {
        None => {
            return None;
        },
        Some(k) => k,
    };
    proof {
        lemma_first_occ_props(rest1@, '"');
    }
    let j = 1 + k;
    let key = s.substring_char(1, j).to_owned();
    if n - j <= 2 {
        return None;
    }
    if s.get_char(j + 1) != ':' || s.get_char(j + 2) != '"' {
        return None;
    }
    let rest2 = s.substring_char(j + 3, n);
    let m = match first_quote(rest2) {
        None => {
            return None;
        },
        Some(m) => m,
    };
    proof {
        lemma_first_occ_props(rest2@, '"');
    }
    let q = j + 3 + m;
    let val = s.substring_char(j + 3, q).to_owned();
    if q + 1 == n {
        let mut out: Vec<(String, String)> = Vec::new();
        out.push((key, val));
        proof {
            assert(entries_view(out@) =~= seq![
                (s@.subrange(1, j as int), s@.subrange(j + 3, q as int)),
            ]);
        }
        return Some(out);
    }
    if s.get_char(q + 1) == ',' {
        let start = if q + 2 < n && s.get_char(q + 2) == ' ' {
            q + 3
        } else {
            q + 2
        };
        let rest3 = s.substring_char(start, n);
        match parse_pairs_exec(rest3) {
            None => None,
            Some(mut rest) => {
                let ghost restv = rest@;
                rest.insert(0, (key, val));
                proof {
                    assert(entries_view(rest@) =~= seq![
                        (s@.subrange(1, j as int), s@.subrange(j + 3, q as int)),
                    ] + entries_view(restv));
                }
                Some(rest)
            },
        }
    } else {
        None
    }
}

/// Parses one request unit into its field list; `None` exactly when the
/// unit is not a well-formed record.
pub fn parse_record(unit: &str) -> (r: Option<Vec<(String, String)>>)
    ensures
        r matches Some(v) ==> parse_record_spec(unit@) matches Some(ps) && ps == entries_view(v@),
        r is None ==> parse_record_spec(unit@) is None,
{
    let n = unit.unicode_len();
    if n < 2 {
        return None;
    }
    if unit.get_char(0) != '{' || unit.get_char(n - 1) != '}' {
        return None;
    }
    let mid = unit.substring_char(1, n - 1);
    if n == 2 {
        let out: Vec<(String, String)> = Vec::new();
        proof {
            assert(entries_view(out@) =~= Seq::<(Seq<char>, Seq<char>)>::empty());
        }
        return Some(out);
    }
    match parse_pairs_exec(mid) {
        None => None,
        Some(v) => Some(v),
    }
}

/// A non-empty field list renders as its head pair, then a comma and the
/// rest.
pub proof fn lemma_render_pairs_head(ps: Seq<(Seq<char>, Seq<char>)>)
    requires
        ps.len() > 0,
    ensures
        ps.len() == 1 ==> render_pairs(ps) == render_pair(ps[0]),
        ps.len() > 1 ==> render_pairs(ps) == render_pair(ps[0]) + seq![','] + render_pairs(
            ps.drop_first(),
        ),
    decreases ps.len(),
{
    if ps.len() == 2 {
        assert(ps.drop_last() =~= seq![ps[0]]);
        assert(ps.drop_first() =~= seq![ps[1]]);
        assert(render_pairs(ps) == render_pairs(ps.drop_last()) + seq![','] + render_pair(
            ps.last(),
        ));
        assert(render_pairs(ps.drop_first()) == render_pair(ps[1]));
    } else if ps.len() > 2 {
        lemma_render_pairs_head(ps.drop_last());
        assert(ps.drop_last()[0] == ps[0]);
        assert(ps.drop_last().drop_first() =~= ps.drop_first().drop_last());
        assert(ps.drop_first().last() == ps.last());
        assert(render_pairs(ps) == render_pairs(ps.drop_last()) + seq![','] + render_pair(
            ps.last(),
        ));
        assert(render_pairs(ps.drop_first()) == render_pairs(ps.drop_first().drop_last())
            + seq![','] + render_pair(ps.last()));
        assert(render_pairs(ps) =~= render_pair(ps[0]) + seq![','] + render_pairs(
            ps.drop_first(),
        ));
    }
}

/// A rendered non-empty field list parses back to exactly its fields.
#[verifier::rlimit(60)]
pub proof fn lemma_parse_pairs_render(ps: Seq<(Seq<char>, Seq<char>)>)
    requires
        ps.len() > 0,
        pairs_ok(ps),
    ensures
        parse_pairs1(render_pairs(ps)) == Some(ps),
    decreases ps.len(),
{
    let s = render_pairs(ps);
    let k0 = ps[0].0;
    let v0 = ps[0].1;
    let rp0 = render_pair(ps[0]);
    lemma_render_pairs_head(ps);
    let tail: Seq<char> = if ps.len() > 1 {
        seq![','] + render_pairs(ps.drop_first())
    } else {
        Seq::empty()
    };
    assert(s =~= rp0 + tail);
    assert(rp0.len() == k0.len() + v0.len() + 5);
    let kl = k0.len() as int;
    let vl = v0.len() as int;
    // the layout of one rendered pair inside the stream
    assert forall|i: int| 0 <= i < rp0.len() implies s[i] == rp0[i] by {}
    assert(rp0[0] == '"');
    assert forall|i: int| 1 <= i < 1 + kl implies rp0[i] == k0[i - 1] by {
        assert(rp0[i] == (seq!['"'] + k0)[i]);
    }
    assert(rp0[1 + kl] == '"');
    assert(rp0[2 + kl] == ':');
    assert(rp0[3 + kl] == '"');
    assert forall|i: int| 4 + kl <= i < 4 + kl + vl implies rp0[i] == v0[i - 4 - kl] by {
        assert(rp0[i] == (seq!['"'] + k0 + seq!['"', ':', '"'] + v0)[i]);
    }
    assert(rp0[4 + kl + vl] == '"');

    // the key is read up to its closing quote
    assert(s[0] == '"');
    let d = s.drop_first();
    assert(d[kl] == '"');
    assert(forall|j: int| 0 <= j < kl ==> d[j] == k0[j]);
    assert(forall|j: int| 0 <= j < kl ==> d[j] != '"');
    lemma_first_occ_at(d, '"', kl);
    let j = 1 + kl;
    assert(s.subrange(1, j) =~= k0);
    assert(j + 2 < s.len());
    assert(s[j + 1] == ':');
    assert(s[j + 2] == '"');

    // the value is read up to its closing quote
    let rest = s.subrange(j + 3, s.len() as int);
    assert(rest[vl] == '"');
    assert(forall|i: int| 0 <= i < vl ==> rest[i] == v0[i]);
    assert(forall|i: int| 0 <= i < vl ==> rest[i] != '"');
    lemma_first_occ_at(rest, '"', vl);
    let q = j + 3 + vl;
    assert(s.subrange(j + 3, q) =~= v0);
    assert(ps[0] == (ps[0].0, ps[0].1));

    if ps.len() == 1 {
        assert(q + 1 == s.len());
        assert(seq![(k0, v0)] =~= ps);
    } else {
        let rps = render_pairs(ps.drop_first());
        lemma_render_pairs_head(ps.drop_first());
        assert(rps.len() > 0);
        assert(rps[0] == '"');
        assert(q + 1 < s.len());
        assert(s[q + 1] == ',');
        assert(s[q + 2] == rps[0]);
        assert(s[q + 2] != ' ');
        assert(s.subrange(q + 2, s.len() as int) =~= rps);
        assert(pairs_ok(ps.drop_first())) by {
            assert(forall|i: int|
                0 <= i < ps.drop_first().len() ==> ps.drop_first()[i] == ps[i + 1]);
        }
        lemma_parse_pairs_render(ps.drop_first());
        assert(seq![(k0, v0)] + ps.drop_first() =~= ps);
    }
}

/// Round trip: a record built from quotable fields parses back to exactly
/// those fields, so a reader on the other end of the wire sees what the
/// writer meant.
pub proof fn lemma_record_round_trip(ps: Seq<(Seq<char>, Seq<char>)>)
    requires
        pairs_ok(ps),
    ensures
        parse_record_spec(render_record(ps)) == Some(ps),
{
    let s = render_record(ps);
    assert(s[0] == '{');
    assert(s.last() == '}');
    let mid = s.subrange(1, s.len() - 1);
    assert(mid =~= render_pairs(ps));
    if ps.len() == 0 {
        assert(mid.len() == 0);
        assert(Seq::<(Seq<char>, Seq<char>)>::empty() =~= ps);
    } else {
        lemma_render_pairs_head(ps);
        assert(render_pairs(ps).len() > 0) by {
            assert(render_pair(ps[0]).len() >= 5);
        }
        lemma_parse_pairs_render(ps);
    }
}

// ---------------------------------------------------------------------
// Request extraction.
// ---------------------------------------------------------------------

/// The value of the first field with this key.
pub open spec fn lookup_spec(ps: Seq<(Seq<char>, Seq<char>)>, key: Seq<char>) -> Option<Seq<char>>
    decreases ps.len(),
{
    if ps.len() == 0 {
        None
    } else if ps[0].0 == key {
        Some(ps[0].1)
    } else {
        lookup_spec(ps.drop_first(), key)
    }
}

/// A known first match pins `lookup_spec` down.
pub proof fn lemma_lookup_at(ps: Seq<(Seq<char>, Seq<char>)>, key: Seq<char>, i: int)
    requires
        0 <= i < ps.len(),
        ps[i].0 == key,
        forall|j: int| 0 <= j < i ==> ps[j].0 != key,
    ensures
        lookup_spec(ps, key) == Some(ps[i].1),
    decreases ps.len(),
{
    if i > 0 {
        assert(forall|j: int| 0 <= j < ps.len() - 1 ==> ps.drop_first()[j] == ps[j + 1]);
        lemma_lookup_at(ps.drop_first(), key, i - 1);
    }
}

/// A key that no field carries leaves `lookup_spec` empty.
pub proof fn lemma_lookup_absent(ps: Seq<(Seq<char>, Seq<char>)>, key: Seq<char>)
    requires
        forall|j: int| 0 <= j < ps.len() ==> ps[j].0 != key,
    ensures
        lookup_spec(ps, key) is None,
    decreases ps.len(),
{
    if ps.len() > 0 {
        assert(forall|j: int| 0 <= j < ps.len() - 1 ==> ps.drop_first()[j] == ps[j + 1]);
        lemma_lookup_absent(ps.drop_first(), key);
    }
}

/// The first field with this key, if any.
pub fn lookup(pairs: &Vec<(String, String)>, key: &str) -> (r: Option<String>)
    ensures
        r matches Some(v) ==> lookup_spec(entries_view(pairs@), key@) == Some(v@),
        r is None ==> lookup_spec(entries_view(pairs@), key@) is None,
{
    let n = pairs.len();
    let mut i: usize = 0;
    while i < n
        invariant
            n == pairs@.len(),
            i <= n,
            forall|j: int| 0 <= j < i ==> entries_view(pairs@)[j].0 != key@,
        decreases n - i,
    {
        if str_eq(pairs[i].0.as_str(), key) {
            proof {
                lemma_lookup_at(entries_view(pairs@), key@, i as int);
            }
            return Some(pairs[i].1.clone());
        }
        i = i + 1;
    }
    proof {
        lemma_lookup_absent(entries_view(pairs@), key@);
    }
    None
}

/// One decoded protocol request.
pub enum Request {
    Auth { name: String, room_id: String },
    Send { jwt: String, message: String },
    Receive { jwt: String, last_msg_i: usize },
}

/// The mathematical view of a request.
pub enum RequestView {
    Auth { name: Seq<char>, room_id: Seq<char> },
    Send { jwt: Seq<char>, message: Seq<char> },
    Receive { jwt: Seq<char>, last_msg_i: nat },
}

impl View for Request {
    type V = RequestView;

    open spec fn view(&self) -> RequestView {
        match self {
            Request::Auth { name, room_id } => RequestView::Auth {
                name: name@,
                room_id: room_id@,
            },
            Request::Send { jwt, message } => RequestView::Send {
                jwt: jwt@,
                message: message@,
            },
            Request::Receive { jwt, last_msg_i } => RequestView::Receive {
                jwt: jwt@,
                last_msg_i: *last_msg_i as nat,
            },
        }
    }
}

/// The request a field list carries: selected by `path`, with the
/// operation's required fields; `last_msg_i` must be a decimal number
/// that fits the machine.
pub open spec fn request_of(ps: Seq<(Seq<char>, Seq<char>)>) -> Result<RequestView, DecodeError> {
    match lookup_spec(ps, "path"@) {
        None => Err(DecodeError::Malformed),
        Some(p) => {
            if p == "/auth"@ {
                match (lookup_spec(ps, "name"@), lookup_spec(ps, "room_id"@)) {
                    (Some(n), Some(rm)) => Ok(RequestView::Auth { name: n, room_id: rm }),
                    _ => Err(DecodeError::Malformed),
                }
            } else if p == "/send"@ {
                match (lookup_spec(ps, "jwt"@), lookup_spec(ps, "message"@)) {
                    (Some(t), Some(msg)) => Ok(RequestView::Send { jwt: t, message: msg }),
                    _ => Err(DecodeError::Malformed),
                }
            } else if p == "/receive"@ {
                match (lookup_spec(ps, "jwt"@), lookup_spec(ps, "last_msg_i"@)) {
                    (Some(t), Some(l)) => {
                        if is_dec(l) && dec_val(l) <= usize::MAX {
                            Ok(RequestView::Receive { jwt: t, last_msg_i: dec_val(l) })
                        } else {
                            Err(DecodeError::Malformed)
                        }
                    },
                    _ => Err(DecodeError::Malformed),
                }
            } else {
                Err(DecodeError::UnknownPath)
            }
        },
    }
}

/// The view of a decoded request or its error.
pub open spec fn req_result_view(r: Result<Request, DecodeError>) -> Result<
    RequestView,
    DecodeError,
> {
    match r {
        Ok(q) => Ok(q@),
        Err(e) => Err(e),
    }
}

/// What decoding one unit yields: the request of its record, or the
/// decode error.
pub open spec fn decode_unit_spec(s: Seq<char>) -> Result<RequestView, DecodeError> {
    match parse_record_spec(s) {
        None => Err(DecodeError::Malformed),
        Some(ps) => request_of(ps),
    }
}

/// Decodes one unit into a request, exactly as `decode_unit_spec` reads
/// it: `Malformed` for a unit that is not a record or lacks a required
/// field, `UnknownPath` for a record whose `path` is not a recognized
/// operation.
pub fn decode_unit(unit: &str) -> (r: Result<Request, DecodeError>)
    ensures
        req_result_view(r) == decode_unit_spec(unit@),
{
    let pairs = match parse_record(unit) {
        None => {
            return Err(DecodeError::Malformed);
        },
        Some(v) => v,
    };
    let path = match lookup(&pairs, "path") {
        None => {
            return Err(DecodeError::Malformed);
        },
        Some(p) => p,
    };
    if str_eq(path.as_str(), "/auth") {
        match (lookup(&pairs, "name"), lookup(&pairs, "room_id")) {
            (Some(n), Some(rm)) => Ok(Request::Auth { name: n, room_id: rm }),
            _ => Err(DecodeError::Malformed),
        }
    } else if str_eq(path.as_str(), "/send") {
        match (lookup(&pairs, "jwt"), lookup(&pairs, "message")) {
            (Some(t), Some(msg)) => Ok(Request::Send { jwt: t, message: msg }),
            _ => Err(DecodeError::Malformed),
        }
    } else if str_eq(path.as_str(), "/receive") {
        match (lookup(&pairs, "jwt"), lookup(&pairs, "last_msg_i")) {
            (Some(t), Some(l)) => {
                match parse_dec(l.as_str()) {
                    Some(v) => Ok(Request::Receive { jwt: t, last_msg_i: v }),
                    None => Err(DecodeError::Malformed),
                }
            },
            _ => Err(DecodeError::Malformed),
        }
    } else {
        Err(DecodeError::UnknownPath)
    }
}

} // verus!
