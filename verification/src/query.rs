//! Percent-decoding and query strings.

use vstd::prelude::*;
use crate::text::{copy_range, lossy_string, utf8_lossy};

verus! {

// ---------------------------------------------------------------------------
// Percent-decoding
// ---------------------------------------------------------------------------

/// The value of a hexadecimal digit, as `char::to_digit(16)` gives it.
pub open spec fn hex_value(b: u8) -> Option<u8> {
    if 48 <= b <= 57 {
        Some((b - 48) as u8)
    } else if 97 <= b <= 102 {
        Some((b - 87) as u8)
    } else if 65 <= b <= 70 {
        Some((b - 55) as u8)
    } else {
        None
    }
}

/// Percent-decoding: each `%` followed by two hexadecimal digits stands for
/// the byte they spell; every other byte stands for itself.
pub open spec fn percent_decoded(s: Seq<u8>) -> Seq<u8>
    decreases s.len(),
{
    if s.len() == 0 {
        Seq::empty()
    } else if s[0] == 37 && s.len() >= 3 && hex_value(s[1]) is Some && hex_value(s[2]) is Some {
        seq![(hex_value(s[1]).unwrap() * 16 + hex_value(s[2]).unwrap()) as u8] + percent_decoded(
            s.skip(3),
        )
    } else {
        seq![s[0]] + percent_decoded(s.skip(1))
    }
}

/// Calls `percent_encoding::percent_decode` and collects the bytes. Its
/// iterator replaces `%` and two hexadecimal digits by the byte they spell
/// and passes every other byte through, which is `percent_decoded`.
#[verifier::external_body]
fn percent_decode_bytes(s: &[u8]) -> (r: Vec<u8>)
    ensures
        r@ == percent_decoded(s@),
{
    percent_encoding::percent_decode(s).collect()
}

/// Percent-decoding leaves bytes without `%` as they are.
pub proof fn lemma_percent_decoded_plain(s: Seq<u8>)
    requires
        forall|i: int| 0 <= i < s.len() ==> s[i] != 37,
    ensures
        percent_decoded(s) == s,
    decreases s.len(),
{
    if s.len() > 0 {
        lemma_percent_decoded_plain(s.skip(1));
        assert(seq![s[0]] + s.skip(1) =~= s);
    }
}

/// Text of a percent-encoded URI component: percent-decoded, then read as
/// UTF-8 with invalid sequences replaced.
pub open spec fn decode_component(s: Seq<u8>) -> Seq<char> {
    utf8_lossy(percent_decoded(s))
}

/// Percent-decodes a URI component into text, as
/// `percent_decode_str(s).decode_utf8_lossy()` does.
pub fn decode_percent(s: &[u8]) -> (r: String)
    ensures
        r@ == decode_component(s@),
{
    let bytes = percent_decode_bytes(s);
    lossy_string(bytes.as_slice())
}

// ---------------------------------------------------------------------------
// Query parameters
// ---------------------------------------------------------------------------

/// Query parameters: each name once, with its value.
pub struct QueryParams {
    entries: Vec<(String, String)>,
}

pub open spec fn entry_views(e: Seq<(String, String)>) -> Seq<(Seq<char>, Seq<char>)> {
    e.map_values(|p: (String, String)| (p.0@, p.1@))
}

/// The map that a list of (name, value) pairs with distinct names stands for.
pub open spec fn pairs_map(e: Seq<(Seq<char>, Seq<char>)>) -> Map<Seq<char>, Seq<char>> {
    Map::new(
        |k: Seq<char>| exists|i: int| 0 <= i < e.len() && e[i].0 == k,
        |k: Seq<char>| e[choose|i: int| 0 <= i < e.len() && e[i].0 == k].1,
    )
}

pub open spec fn distinct_names(e: Seq<(Seq<char>, Seq<char>)>) -> bool {
    forall|i: int, j: int| 0 <= i < e.len() && 0 <= j < e.len() && i != j ==> e[i].0 != e[j].0
}

impl View for QueryParams {
    type V = Map<Seq<char>, Seq<char>>;

    closed spec fn view(&self) -> Map<Seq<char>, Seq<char>> {
        pairs_map(entry_views(self.entries@))
    }
}

/// In a list with distinct names, the pair holding a name is where the map looks.
proof fn lemma_pairs_map_at(e: Seq<(Seq<char>, Seq<char>)>, i: int)
    requires
        distinct_names(e),
        0 <= i < e.len(),
    ensures
        pairs_map(e).dom().contains(e[i].0),
        pairs_map(e)[e[i].0] == e[i].1,
{
    let k = e[i].0;
    assert(exists|j: int| 0 <= j < e.len() && e[j].0 == k);
    let c = choose|j: int| 0 <= j < e.len() && e[j].0 == k;
    assert(c == i);
}

impl QueryParams {
    #[verifier::type_invariant]
    closed spec fn names_distinct(self) -> bool {
        distinct_names(entry_views(self.entries@))
    }

    /// No parameters.
    pub fn new() -> (q: Self)
        ensures
            q@ == Map::<Seq<char>, Seq<char>>::empty(),
    {
        let q = QueryParams { entries: Vec::new() };
        assert(q@ =~= Map::<Seq<char>, Seq<char>>::empty());
        q
    }

    /// Sets `name` to `value`, replacing an earlier value.
    pub fn insert(&mut self, name: String, value: String)
        ensures
            final(self)@ == old(self)@.insert(name@, value@),
    {
        proof {
            use_type_invariant(&*self);
        }
        let ghost e0 = entry_views(self.entries@);
        let n = self.entries.len();
        let mut i: usize = 0;
        while i < n
            invariant
                n == self.entries@.len(),
                e0 == entry_views(self.entries@),
                e0 == entry_views(old(self).entries@),
                distinct_names(e0),
                i <= n,
                forall|j: int| 0 <= j < i ==> #[trigger] e0[j].0 != name@,
            decreases n - i,
        {
            if self.entries[i].0 == name {
                let mut entries: Vec<(String, String)> = Vec::new();
                std::mem::swap(&mut entries, &mut self.entries);
                entries.set(i, (name, value));
                let ghost e1 = entry_views(entries@);
                assert(e1 =~= e0.update(i as int, (name@, value@)));
                assert(distinct_names(e1)) by {
                    assert forall|a: int, b: int|
                        0 <= a < e1.len() && 0 <= b < e1.len() && a != b implies e1[a].0 != e1[b].0 by {
                        if a != i && b != i {
                            assert(e0[a].0 != e0[b].0);
                        } else if a == i {
                            assert(e0[b].0 != e0[i as int].0);
                        } else {
                            assert(e0[a].0 != e0[i as int].0);
                        }
                    }
                }
                self.entries = entries;
                proof {
                    assert forall|k: Seq<char>|
                        #![trigger pairs_map(e1).dom().contains(k)]
                        pairs_map(e1).dom().contains(k) == pairs_map(e0).insert(name@, value@).dom().contains(k)
                    by {
                        if k != name@ {
                            if pairs_map(e0).dom().contains(k) {
                                let j = choose|j: int| 0 <= j < e0.len() && e0[j].0 == k;
                                assert(e1[j].0 == k);
                            }
                            if pairs_map(e1).dom().contains(k) {
                                let j = choose|j: int| 0 <= j < e1.len() && e1[j].0 == k;
                                assert(e0[j].0 == k);
                            }
                        } else {
                            assert(e1[i as int].0 == k);
                        }
                    }
                    assert forall|k: Seq<char>| #[trigger] pairs_map(e1).dom().contains(k) implies pairs_map(e1)[k]
                        == pairs_map(e0).insert(name@, value@)[k] by {
                        let j = choose|j: int| 0 <= j < e1.len() && e1[j].0 == k;
                        lemma_pairs_map_at(e1, j);
                        if k != name@ {
                            lemma_pairs_map_at(e0, j);
                        } else {
                            assert(e1[i as int].0 == k);
                            if j != i {
                                assert(e1[j].0 != e1[i as int].0);
                            }
                            assert(e1[j] == (name@, value@));
                        }
                    }
                    assert(pairs_map(e1) =~= pairs_map(e0).insert(name@, value@));
                }
                return;
            }
            i = i + 1;
        }
        let ghost nv = name@;
        let ghost vv = value@;
        let mut entries: Vec<(String, String)> = Vec::new();
        std::mem::swap(&mut entries, &mut self.entries);
        entries.push((name, value));
        let ghost e1 = entry_views(entries@);
        assert(e1 =~= e0.push((nv, vv)));
        assert(distinct_names(e1));
        self.entries = entries;
        proof {
            assert forall|k: Seq<char>|
                #![trigger pairs_map(e1).dom().contains(k)]
                pairs_map(e1).dom().contains(k) == pairs_map(e0).insert(nv, vv).dom().contains(k) by {
                if pairs_map(e0).dom().contains(k) {
                    let j = choose|j: int| 0 <= j < e0.len() && e0[j].0 == k;
                    assert(e1[j].0 == k);
                }
                if k == nv {
                    assert(e1[n as int].0 == k);
                }
                if pairs_map(e1).dom().contains(k) && k != nv {
                    let j = choose|j: int| 0 <= j < e1.len() && e1[j].0 == k;
                    assert(e0[j].0 == k);
                }
            }
            assert forall|k: Seq<char>| #[trigger] pairs_map(e1).dom().contains(k) implies pairs_map(e1)[k]
                == pairs_map(e0).insert(nv, vv)[k] by {
                let j = choose|j: int| 0 <= j < e1.len() && e1[j].0 == k;
                lemma_pairs_map_at(e1, j);
                if k != nv {
                    lemma_pairs_map_at(e0, j);
                }
            }
            assert(pairs_map(e1) =~= pairs_map(e0).insert(nv, vv));
        }
    }

    /// The value of `name`, if it is set.
    pub fn get(&self, name: &str) -> (r: Option<&String>)
        ensures
            match r {
                Some(v) => self@.dom().contains(name@) && self@[name@] == v@,
                None => !self@.dom().contains(name@),
            },
    {
        proof {
            use_type_invariant(self);
        }
        let ghost e = entry_views(self.entries@);
        let mut i: usize = 0;
        while i < self.entries.len()
            invariant
                e == entry_views(self.entries@),
                distinct_names(e),
                i <= e.len(),
                forall|j: int| 0 <= j < i ==> #[trigger] e[j].0 != name@,
            decreases e.len() - i,
        {
            if crate::text::str_equal(self.entries[i].0.as_str(), name) {
                proof {
                    lemma_pairs_map_at(e, i as int);
                }
                return Some(&self.entries[i].1);
            }
            i = i + 1;
        }
        None
    }

    /// The number of parameters.
    pub fn len(&self) -> (n: usize)
        ensures
            n == self@.dom().len(),
    {
        proof {
            use_type_invariant(self);
            let e = entry_views(self.entries@);
            let names = e.map_values(|p: (Seq<char>, Seq<char>)| p.0);
            assert(names.no_duplicates());
            names.unique_seq_to_set();
            assert(names.to_set() =~= self@.dom()) by {
                assert forall|k: Seq<char>| #[trigger] self@.dom().contains(k) implies names.to_set().contains(k) by {
                    let j = choose|j: int| 0 <= j < e.len() && e[j].0 == k;
                    assert(names[j] == k);
                }
                assert forall|k: Seq<char>| #[trigger] names.to_set().contains(k) implies self@.dom().contains(k) by {
                    let j = choose|j: int| 0 <= j < names.len() && names[j] == k;
                    assert(e[j].0 == k);
                }
            }
        }
        self.entries.len()
    }
}

// ---------------------------------------------------------------------------
// Parsing a query string
// ---------------------------------------------------------------------------

/// Index of the first byte `b` in `s`, or `s.len()` when there is none.
pub open spec fn byte_index(s: Seq<u8>, b: u8) -> nat
    decreases s.len(),
{
    if s.len() == 0 || s[0] == b {
        0
    } else {
        1 + byte_index(s.drop_first(), b)
    }
}

pub proof fn lemma_byte_index(s: Seq<u8>, b: u8, k: int)
    requires
        0 <= k <= s.len(),
        forall|j: int| 0 <= j < k ==> s[j] != b,
        k == s.len() || s[k] == b,
    ensures
        byte_index(s, b) == k,
    decreases k,
{
    if k > 0 {
        lemma_byte_index(s.drop_first(), b, k - 1);
    }
}

/// A `name=value` piece split at its first `=`; a piece without one is a
/// name with an empty value.
pub open spec fn split_pair(piece: Seq<u8>) -> (Seq<u8>, Seq<u8>) {
    let e = byte_index(piece, 61);
    if e < piece.len() {
        (piece.take(e as int), piece.skip(e as int + 1))
    } else {
        (piece, Seq::empty())
    }
}

/// `m` with the parameter of a piece added; an empty piece adds nothing.
pub open spec fn add_piece(m: Map<Seq<char>, Seq<char>>, piece: Seq<u8>) -> Map<Seq<char>, Seq<char>> {
    if piece.len() == 0 {
        m
    } else {
        m.insert(decode_component(split_pair(piece).0), decode_component(split_pair(piece).1))
    }
}

/// Scanning a query string: the parameters of the pieces ended by `&` so
/// far, and the piece under way.
pub open spec fn query_scan(qs: Seq<u8>) -> (Map<Seq<char>, Seq<char>>, Seq<u8>)
    decreases qs.len(),
{
    if qs.len() == 0 {
        (Map::empty(), Seq::empty())
    } else {
        let (m, cur) = query_scan(qs.drop_last());
        if qs.last() == 38 {
            (add_piece(m, cur), Seq::empty())
        } else {
            (m, cur.push(qs.last()))
        }
    }
}

/// The parameters of a query string: the string is split at each `&`,
/// empty pieces are dropped, each piece is split at its first `=`, both
/// halves are percent-decoded, and a later name replaces an earlier one.
pub open spec fn query_params(qs: Seq<u8>) -> Map<Seq<char>, Seq<char>> {
    add_piece(query_scan(qs).0, query_scan(qs).1)
}

/// Empty pieces add nothing: a trailing `&` leaves the parameters as they are.
pub proof fn lemma_trailing_ampersand(qs: Seq<u8>)
    ensures
        query_params(qs.push(38)) == query_params(qs),
{
    assert(qs.push(38).drop_last() =~= qs);
}

/// A later piece with the same name replaces the value of an earlier one.
pub proof fn lemma_later_piece_wins(qs: Seq<u8>, piece: Seq<u8>)
    requires
        piece.len() > 0,
        forall|i: int| 0 <= i < piece.len() ==> piece[i] != 38,
    ensures
        query_params(qs.push(38) + piece) == query_params(qs).insert(
            decode_component(split_pair(piece).0),
            decode_component(split_pair(piece).1),
        ),
    decreases piece.len(),
{
    lemma_scan_piece(qs.push(38), piece);
    assert(qs.push(38).drop_last() =~= qs);
}

proof fn lemma_scan_no_ampersand(qs: Seq<u8>)
    requires
        forall|i: int| 0 <= i < qs.len() ==> qs[i] != 38,
    ensures
        query_scan(qs) == (Map::<Seq<char>, Seq<char>>::empty(), qs),
    decreases qs.len(),
{
    if qs.len() > 0 {
        lemma_scan_no_ampersand(qs.drop_last());
        assert(qs.drop_last().push(qs.last()) =~= qs);
    }
}

/// The parameter of a piece is split at its first `=`: `k` is the position
/// of the first `=`, or the piece's length when it has none.
proof fn lemma_split_at_first_equals(piece: Seq<u8>, k: int)
    requires
        0 <= k <= piece.len(),
        forall|j: int| 0 <= j < k ==> piece[j] != 61,
        k == piece.len() || piece[k] == 61,
    ensures
        split_pair(piece) == (piece.take(k), if k < piece.len() {
            piece.skip(k + 1)
        } else {
            Seq::<u8>::empty()
        }),
{
    lemma_byte_index(piece, 61, k);
    if k == piece.len() {
        assert(piece.take(k) =~= piece);
    }
}

/// A query string of one non-empty piece without `&` gives one parameter:
/// the part before the piece's first `=` as name, the part after it as value
/// (empty when there is no `=`), both percent-decoded.
pub proof fn query_single_piece(piece: Seq<u8>, k: int)
    requires
        piece.len() > 0,
        forall|i: int| 0 <= i < piece.len() ==> piece[i] != 38,
        0 <= k <= piece.len(),
        forall|j: int| 0 <= j < k ==> piece[j] != 61,
        k == piece.len() || piece[k] == 61,
    ensures
        query_params(piece) == Map::<Seq<char>, Seq<char>>::empty().insert(
            decode_component(piece.take(k)),
            decode_component(
                if k < piece.len() {
                    piece.skip(k + 1)
                } else {
                    Seq::<u8>::empty()
                },
            ),
        ),
{
    lemma_scan_no_ampersand(piece);
    lemma_split_at_first_equals(piece, k);
}

/// A non-empty piece after an `&` adds its parameter, split at the piece's
/// first `=`, over those of the pieces before it.
pub proof fn query_piece_after_ampersand(qs: Seq<u8>, piece: Seq<u8>, k: int)
    requires
        piece.len() > 0,
        forall|i: int| 0 <= i < piece.len() ==> piece[i] != 38,
        0 <= k <= piece.len(),
        forall|j: int| 0 <= j < k ==> piece[j] != 61,
        k == piece.len() || piece[k] == 61,
    ensures
        query_params(qs.push(38) + piece) == query_params(qs).insert(
            decode_component(piece.take(k)),
            decode_component(
                if k < piece.len() {
                    piece.skip(k + 1)
                } else {
                    Seq::<u8>::empty()
                },
            ),
        ),
{
    lemma_later_piece_wins(qs, piece);
    lemma_split_at_first_equals(piece, k);
}

proof fn lemma_scan_piece(prefix: Seq<u8>, piece: Seq<u8>)
    requires
        prefix.len() > 0,
        prefix.last() == 38,
        forall|i: int| 0 <= i < piece.len() ==> piece[i] != 38,
    ensures
        query_scan(prefix + piece) == (query_scan(prefix).0, piece),
        query_scan(prefix).1 == Seq::<u8>::empty(),
    decreases piece.len(),
{
    if piece.len() == 0 {
        assert(prefix + piece =~= prefix);
    } else {
        lemma_scan_piece(prefix, piece.drop_last());
        assert((prefix + piece).drop_last() =~= prefix + piece.drop_last());
        assert(piece.drop_last().push(piece.last()) =~= piece);
    }
}

fn add_piece_of(params: &mut QueryParams, qs: &[u8], lo: usize, hi: usize)
    requires
        lo <= hi <= qs@.len(),
    ensures
        final(params)@ == add_piece(old(params)@, qs@.subrange(lo as int, hi as int)),
{
    if lo == hi {
        return;
    }
    let ghost piece = qs@.subrange(lo as int, hi as int);
    let mut e = lo;
    while e < hi && qs[e] != 61
        invariant
            lo <= e <= hi <= qs@.len(),
            forall|j: int| lo <= j < e ==> qs@[j] != 61,
        decreases hi - e,
    {
        e = e + 1;
    }
    proof {
        lemma_byte_index(piece, 61, e - lo);
    }
    let name;
    let value;
    if e < hi {
        let k = copy_range(qs, lo, e);
        let v = copy_range(qs, e + 1, hi);
        assert(k@ =~= piece.take(e - lo));
        assert(v@ =~= piece.skip(e - lo + 1));
        name = decode_percent(k.as_slice());
        value = decode_percent(v.as_slice());
    } else {
        let k = copy_range(qs, lo, hi);
        let v: Vec<u8> = Vec::new();
        assert(v@ =~= Seq::<u8>::empty());
        name = decode_percent(k.as_slice());
        value = decode_percent(v.as_slice());
    }
    params.insert(name, value);
}

/// Parses a query string into its parameters.
pub fn parse_query_string(qs: &[u8]) -> (params: QueryParams)
    ensures
        params@ == query_params(qs@),
{
    let mut params = QueryParams::new();
    let n = qs.len();
    let mut start: usize = 0;
    let mut i: usize = 0;
    while i < n
        invariant
            n == qs@.len(),
            start <= i <= n,
            query_scan(qs@.take(i as int)) == (params@, qs@.subrange(start as int, i as int)),
        decreases n - i,
    {
        assert(qs@.take(i + 1).drop_last() =~= qs@.take(i as int));
        if qs[i] == 38 {
            add_piece_of(&mut params, qs, start, i);
            start = i + 1;
            assert(qs@.subrange(start as int, i + 1) =~= Seq::<u8>::empty());
        } else {
            assert(qs@.subrange(start as int, i + 1) =~= qs@.subrange(start as int, i as int).push(qs@[i as int]));
        }
        i = i + 1;
    }
    assert(qs@.take(n as int) =~= qs@);
    add_piece_of(&mut params, qs, start, n);
    params
}

} // verus!
