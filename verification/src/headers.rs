//! The header multi-map of a request or response.
//!
//! Headers are kept in insertion order as (name, value) pairs of bytes; names
//! are stored lowercased. Enumeration sorts names byte-wise ascending and
//! drops duplicates, and sorts the values of one name byte-wise ascending, as
//! the host-call ABI requires.

use crate::bytelex::{
    bytes_eq, insert_sorted, insert_unique_sorted, lemma_lex_total_ordering,
    lemma_sorted_iff_sorted_by, lemma_strictly_sorted_unique, lex_leq_fn, sorted, strictly_sorted,
    views_of,
};
use vstd::prelude::*;
use vstd::slice::slice_to_vec;

verus! {

/// A header name byte in stored (lowercased) form: the token bytes that a
/// header name may consist of.
pub open spec fn valid_name_byte(b: u8) -> bool {
    ||| 33 <= b <= 39
    ||| b == 42
    ||| b == 43
    ||| b == 45
    ||| b == 46
    ||| 48 <= b <= 57
    ||| 94 <= b <= 122
    ||| b == 124
    ||| b == 126
}

/// An ASCII byte with uppercase letters mapped to lowercase.
pub open spec fn lower_byte(b: u8) -> u8 {
    if 65 <= b <= 90 {
        (b + 32) as u8
    } else {
        b
    }
}

/// A byte string with each byte lowercased.
pub open spec fn lower_bytes(s: Seq<u8>) -> Seq<u8> {
    s.map_values(|b: u8| lower_byte(b))
}

/// A stored header name: nonempty, within the length bound, all bytes valid
/// and already lowercase.
pub open spec fn valid_name(n: Seq<u8>) -> bool {
    &&& 1 <= n.len() <= 0xffff
    &&& forall|i: int| 0 <= i < n.len() ==> valid_name_byte(#[trigger] n[i])
}

/// Raw bytes accepted as a header name: nonempty, within the length bound,
/// every byte valid once lowercased.
pub open spec fn header_name_ok(s: Seq<u8>) -> bool {
    &&& 1 <= s.len() <= 0xffff
    &&& forall|i: int| 0 <= i < s.len() ==> valid_name_byte(lower_byte(#[trigger] s[i]))
}

/// Accepted raw name bytes lowercase to a stored header name.
pub proof fn lemma_name_ok_lower(s: Seq<u8>)
    requires
        header_name_ok(s),
    ensures
        valid_name(lower_bytes(s)),
{
    assert forall|i: int| 0 <= i < lower_bytes(s).len() implies valid_name_byte(
        #[trigger] lower_bytes(s)[i],
    ) by {
        assert(lower_bytes(s)[i] == lower_byte(s[i]));
    }
}

/// A header value byte: horizontal tab, or any byte from space on except
/// delete.
pub open spec fn valid_value_byte(b: u8) -> bool {
    b == 9 || (32 <= b && b != 127)
}

/// A stored header value: every byte valid; the empty value is allowed.
pub open spec fn valid_value(v: Seq<u8>) -> bool {
    forall|i: int| 0 <= i < v.len() ==> valid_value_byte(#[trigger] v[i])
}

/// One header entry.
pub struct Header {
    pub name: Vec<u8>,
    pub value: Vec<u8>,
}

impl View for Header {
    type V = (Seq<u8>, Seq<u8>);

    open spec fn view(&self) -> (Seq<u8>, Seq<u8>) {
        (self.name@, self.value@)
    }
}

/// The header multi-map: entries in insertion order.
pub struct Headers {
    pub entries: Vec<Header>,
}

/// The names of the entries, in entry order and with repetitions.
pub open spec fn spec_names(entries: Seq<(Seq<u8>, Seq<u8>)>) -> Seq<Seq<u8>> {
    entries.map_values(|e: (Seq<u8>, Seq<u8>)| e.0)
}

/// The predicate picking the entries named `name`.
pub open spec fn name_is(name: Seq<u8>) -> spec_fn((Seq<u8>, Seq<u8>)) -> bool {
    |e: (Seq<u8>, Seq<u8>)| e.0 == name
}

/// The predicate picking the entries not named `name`.
pub open spec fn name_is_not(name: Seq<u8>) -> spec_fn((Seq<u8>, Seq<u8>)) -> bool {
    |e: (Seq<u8>, Seq<u8>)| e.0 != name
}

/// The projection from an entry to its value.
pub open spec fn entry_value() -> spec_fn((Seq<u8>, Seq<u8>)) -> Seq<u8> {
    |e: (Seq<u8>, Seq<u8>)| e.1
}

/// The values stored under `name`, in entry order.
pub open spec fn spec_values_of(entries: Seq<(Seq<u8>, Seq<u8>)>, name: Seq<u8>) -> Seq<Seq<u8>> {
    entries.filter(name_is(name)).map_values(entry_value())
}

/// What it is to enumerate the names of `entries`: strictly sorted, and
/// holding exactly the names present.
pub open spec fn is_sorted_names_of(names: Seq<Seq<u8>>, entries: Seq<(Seq<u8>, Seq<u8>)>) -> bool {
    strictly_sorted(names) && (forall|n: Seq<u8>| names.contains(n) <==> spec_names(
        entries,
    ).contains(n))
}

/// The enumeration order of the names of `entries`: the unique strictly
/// sorted sequence holding exactly the names present.
pub open spec fn spec_sorted_names(entries: Seq<(Seq<u8>, Seq<u8>)>) -> Seq<Seq<u8>> {
    choose|names: Seq<Seq<u8>>| is_sorted_names_of(names, entries)
}

/// The enumeration order of the values of `name` in `entries`: the unique
/// sorted arrangement of exactly those values.
pub open spec fn spec_sorted_values(entries: Seq<(Seq<u8>, Seq<u8>)>, name: Seq<u8>) -> Seq<
    Seq<u8>,
> {
    spec_values_of(entries, name).sort_by(lex_leq_fn())
}

impl View for Headers {
    type V = Seq<(Seq<u8>, Seq<u8>)>;

    open spec fn view(&self) -> Seq<(Seq<u8>, Seq<u8>)> {
        Seq::new(self.entries@.len(), |i: int| self.entries@[i]@)
    }
}

/// Every entry holds a stored name and a valid value.
pub open spec fn headers_wf(entries: Seq<(Seq<u8>, Seq<u8>)>) -> bool {
    forall|i: int| 0 <= i < entries.len() ==> valid_name(#[trigger] entries[i].0) && valid_value(
        entries[i].1,
    )
}

impl Headers {
    /// Every entry holds a stored name and a valid value.
    pub open spec fn wf(&self) -> bool {
        headers_wf(self@)
    }

    /// An empty header map.
    pub fn new() -> (r: Headers)
        ensures
            r@ == Seq::<(Seq<u8>, Seq<u8>)>::empty(),
            r.wf(),
    {
        let r = Headers { entries: Vec::new() };
        proof {
            assert(r@ =~= Seq::<(Seq<u8>, Seq<u8>)>::empty());
        }
        r
    }

    /// The number of entries, each name counted once per value.
    pub fn len(&self) -> (r: usize)
        ensures
            r == self@.len(),
    {
        self.entries.len()
    }

    /// Appends one entry to the multi-map.
    pub fn append(&mut self, name: Vec<u8>, value: Vec<u8>)
        requires
            valid_name(name@),
            valid_value(value@),
        ensures
            final(self)@ == old(self)@.push((name@, value@)),
            old(self).wf() ==> final(self).wf(),
    {
        let ghost old_view = self@;
        self.entries.push(Header { name, value });
        proof {
            assert(self@ =~= old_view.push((name@, value@)));
        }
    }

    /// An entry-for-entry copy.
    pub fn duplicate(&self) -> (r: Headers)
        ensures
            r@ == self@,
    {
        let mut entries: Vec<Header> = Vec::new();
        let mut i: usize = 0;
        while i < self.entries.len()
            invariant
                i <= self.entries@.len(),
                entries@.len() == i,
                forall|k: int| 0 <= k < i ==> #[trigger] entries@[k]@ == self.entries@[k]@,
            decreases self.entries@.len() - i,
        {
            let e = &self.entries[i];
            entries.push(Header { name: slice_to_vec(e.name.as_slice()), value: slice_to_vec(e.value.as_slice()) });
            i = i + 1;
        }
        let r = Headers { entries };
        proof {
            assert(r@ =~= self@);
        }
        r
    }

    /// The distinct header names, sorted byte-wise ascending: a strictly
    /// sorted sequence holding exactly the names present in the map.
    pub fn sorted_names(&self) -> (r: Vec<Vec<u8>>)
        ensures
            strictly_sorted(views_of(r@)),
            forall|n: Seq<u8>| views_of(r@).contains(n) <==> spec_names(self@).contains(n),
            views_of(r@) == spec_sorted_names(self@),
    {
        let mut r: Vec<Vec<u8>> = Vec::new();
        let mut i: usize = 0;
        proof {
            assert(views_of(r@) =~= Seq::<Seq<u8>>::empty());
        }
        while i < self.entries.len()
            invariant
                i <= self.entries@.len(),
                strictly_sorted(views_of(r@)),
                forall|n: Seq<u8>| views_of(r@).contains(n) <==> spec_names(
                    self@.take(i as int),
                ).contains(n),
            decreases self.entries@.len() - i,
        {
            let ghost prev = views_of(r@);
            let e = &self.entries[i];
            let name_copy = slice_to_vec(e.name.as_slice());
            proof {
                assert(self@[i as int] == (e.name@, e.value@));
            }
            insert_unique_sorted(&mut r, name_copy);
            proof {
                lemma_names_take_step(self@, i as int);
                assert forall|n: Seq<u8>| views_of(r@).contains(n) <==> spec_names(
                    self@.take(i + 1),
                ).contains(n) by {
                    lemma_push_contains(spec_names(self@.take(i as int)), self@[i as int].0, n);
                }
            }
            i = i + 1;
        }
        proof {
            assert(self@.take(self@.len() as int) =~= self@);
            assert(is_sorted_names_of(views_of(r@), self@));
            assert(exists|ns: Seq<Seq<u8>>| is_sorted_names_of(ns, self@));
            lemma_strictly_sorted_unique(views_of(r@), spec_sorted_names(self@));
        }
        r
    }

    /// The values stored under `name`, sorted byte-wise ascending: the unique
    /// sorted arrangement of exactly those values.
    pub fn values_of(&self, name: &Vec<u8>) -> (r: Vec<Vec<u8>>)
        ensures
            sorted(views_of(r@)),
            views_of(r@).to_multiset() == spec_values_of(self@, name@).to_multiset(),
            views_of(r@) == spec_sorted_values(self@, name@),
    {
        broadcast use vstd::seq_lib::group_to_multiset_ensures;

        let mut r: Vec<Vec<u8>> = Vec::new();
        let mut i: usize = 0;
        proof {
            assert(views_of(r@) =~= Seq::<Seq<u8>>::empty());
            assert(self@.take(0).filter(name_is(name@)) =~= Seq::<(Seq<u8>, Seq<u8>)>::empty()) by {
                reveal(Seq::filter);
                assert(self@.take(0) =~= Seq::<(Seq<u8>, Seq<u8>)>::empty());
            }
            assert(spec_values_of(self@.take(0), name@) =~= Seq::<Seq<u8>>::empty());
            assert(views_of(r@).to_multiset() =~= spec_values_of(
                self@.take(0),
                name@,
            ).to_multiset());
        }
        while i < self.entries.len()
            invariant
                i <= self.entries@.len(),
                sorted(views_of(r@)),
                views_of(r@).to_multiset() == spec_values_of(self@.take(i as int), name@).to_multiset(),
            decreases self.entries@.len() - i,
        {
            let e = &self.entries[i];
            proof {
                assert(self@[i as int] == (e.name@, e.value@));
                lemma_values_take_step(self@, name@, i as int);
            }
            if bytes_eq(&e.name, name) {
                let value_copy = slice_to_vec(e.value.as_slice());
                assert(value_copy@ == self@[i as int].1);
                let ghost prev = views_of(r@);
                insert_sorted(&mut r, value_copy);
                proof {
                    assert(views_of(r@).to_multiset() == prev.to_multiset().insert(
                        self@[i as int].1,
                    ));
                    assert(spec_values_of(self@.take(i + 1), name@) == spec_values_of(
                        self@.take(i as int),
                        name@,
                    ).push(self@[i as int].1));
                    spec_values_of(self@.take(i as int), name@).to_multiset_ensures();
                    assert(spec_values_of(self@.take(i + 1), name@).to_multiset()
                        == spec_values_of(self@.take(i as int), name@).to_multiset().insert(
                        self@[i as int].1,
                    ));
                }
            } else {
                proof {
                    assert(spec_values_of(self@.take(i + 1), name@) == spec_values_of(
                        self@.take(i as int),
                        name@,
                    ));
                }
            }
            i = i + 1;
        }
        proof {
            assert(self@.take(self@.len() as int) =~= self@);
            let target = spec_values_of(self@, name@);
            lemma_lex_total_ordering();
            target.lemma_sort_by_ensures(lex_leq_fn());
            lemma_sorted_iff_sorted_by(views_of(r@));
            lemma_sorted_iff_sorted_by(target.sort_by(lex_leq_fn()));
            vstd::seq_lib::lemma_sorted_unique(
                views_of(r@),
                target.sort_by(lex_leq_fn()),
                lex_leq_fn(),
            );
        }
        r
    }

    /// The first value stored under `name`, in entry order, if any.
    pub fn first_value_of(&self, name: &Vec<u8>) -> (r: Option<Vec<u8>>)
        ensures
            r matches Some(v) ==> spec_values_of(self@, name@).len() > 0 && v@ == spec_values_of(
                self@,
                name@,
            )[0],
            r is None ==> spec_values_of(self@, name@).len() == 0,
    {
        let mut i: usize = 0;
        proof {
            assert(self@.take(0).filter(name_is(name@)) =~= Seq::<(Seq<u8>, Seq<u8>)>::empty()) by {
                reveal(Seq::filter);
                assert(self@.take(0) =~= Seq::<(Seq<u8>, Seq<u8>)>::empty());
            }
            assert(spec_values_of(self@.take(0), name@) =~= Seq::<Seq<u8>>::empty());
        }
        while i < self.entries.len()
            invariant
                i <= self.entries@.len(),
                spec_values_of(self@.take(i as int), name@).len() == 0,
            decreases self.entries@.len() - i,
        {
            let e = &self.entries[i];
            proof {
                assert(self@[i as int] == (e.name@, e.value@));
                lemma_values_take_step(self@, name@, i as int);
            }
            if bytes_eq(&e.name, name) {
                proof {
                    lemma_values_split(self@, name@, i + 1);
                    assert(spec_values_of(self@, name@)[0] == e.value@);
                }
                return Some(slice_to_vec(e.value.as_slice()));
            }
            i = i + 1;
        }
        proof {
            assert(self@.take(self@.len() as int) =~= self@);
        }
        None
    }

    /// The multi-map without any entry named `name`: the other entries, in
    /// their original order.
    pub fn without_name(&self, name: &Vec<u8>) -> (r: Headers)
        ensures
            r@ == self@.filter(name_is_not(name@)),
            self.wf() ==> r.wf(),
    {
        let ghost pred = name_is_not(name@);
        let mut entries: Vec<Header> = Vec::new();
        let mut i: usize = 0;
        proof {
            assert(self@.take(0).filter(pred) =~= Seq::<(Seq<u8>, Seq<u8>)>::empty()) by {
                reveal(Seq::filter);
                assert(self@.take(0) =~= Seq::<(Seq<u8>, Seq<u8>)>::empty());
            }
            assert(Seq::new(entries@.len(), |k: int| entries@[k]@) =~= Seq::<(
                Seq<u8>,
                Seq<u8>,
            )>::empty());
        }
        while i < self.entries.len()
            invariant
                i <= self.entries@.len(),
                Seq::new(entries@.len(), |k: int| entries@[k]@) == self@.take(i as int).filter(
                    pred,
                ),
                pred == (|e: (Seq<u8>, Seq<u8>)| e.0 != name@),
            decreases self.entries@.len() - i,
        {
            let ghost acc = Seq::new(entries@.len(), |k: int| entries@[k]@);
            let e = &self.entries[i];
            proof {
                assert(self@[i as int] == (e.name@, e.value@));
                lemma_filter_take_step(self@, pred, i as int);
            }
            if !bytes_eq(&e.name, name) {
                entries.push(
                    Header {
                        name: slice_to_vec(e.name.as_slice()),
                        value: slice_to_vec(e.value.as_slice()),
                    },
                );
                proof {
                    assert(Seq::new(entries@.len(), |k: int| entries@[k]@) =~= acc.push(
                        self@[i as int],
                    ));
                }
            }
            i = i + 1;
        }
        proof {
            assert(self@.take(self@.len() as int) =~= self@);
        }
        let r = Headers { entries };
        proof {
            assert(r@ =~= self@.filter(pred));
            if self.wf() {
                assert forall|k: int| 0 <= k < r@.len() implies valid_name(#[trigger] r@[k].0)
                    && valid_value(r@[k].1) by {
                    lemma_filter_subset(self@, pred, k);
                    let w = choose|w: int| 0 <= w < self@.len() && self@[w] == r@[k];
                }
            }
        }
        r
    }
}

/// The names of one more entry: the names so far plus that entry's name.
pub proof fn lemma_names_take_step(entries: Seq<(Seq<u8>, Seq<u8>)>, i: int)
    requires
        0 <= i < entries.len(),
    ensures
        spec_names(entries.take(i + 1)) == spec_names(entries.take(i)).push(entries[i].0),
{
    assert(spec_names(entries.take(i + 1)) =~= spec_names(entries.take(i)).push(entries[i].0));
}

/// Membership in a sequence extended by one element.
pub proof fn lemma_push_contains(s: Seq<Seq<u8>>, x: Seq<u8>, n: Seq<u8>)
    ensures
        s.push(x).contains(n) <==> s.contains(n) || n == x,
{
    if s.contains(n) {
        let w = choose|w: int| 0 <= w < s.len() && s[w] == n;
        assert(s.push(x)[w] == n);
    }
    if n == x {
        assert(s.push(x)[s.len() as int] == n);
    }
    if s.push(x).contains(n) {
        let w = choose|w: int| 0 <= w < s.push(x).len() && s.push(x)[w] == n;
        if w < s.len() {
            assert(s[w] == n);
        }
    }
}

/// Filtering one more entry appends it when the predicate holds.
pub proof fn lemma_filter_take_step<A>(s: Seq<A>, pred: spec_fn(A) -> bool, i: int)
    requires
        0 <= i < s.len(),
    ensures
        s.take(i + 1).filter(pred) == if pred(s[i]) {
            s.take(i).filter(pred).push(s[i])
        } else {
            s.take(i).filter(pred)
        },
{
    reveal(Seq::filter);
    assert(s.take(i + 1).drop_last() =~= s.take(i));
    assert(s.take(i + 1).last() == s[i]);
}

/// Every element of a filtered sequence occurs in the original sequence.
pub proof fn lemma_filter_subset<A>(s: Seq<A>, pred: spec_fn(A) -> bool, k: int)
    requires
        0 <= k < s.filter(pred).len(),
    ensures
        s.contains(s.filter(pred)[k]),
    decreases s.len(),
{
    reveal(Seq::filter);
    if s.len() > 0 {
        let sub = s.drop_last().filter(pred);
        if k < sub.len() {
            lemma_filter_subset(s.drop_last(), pred, k);
            let w = choose|w: int| 0 <= w < s.drop_last().len() && s.drop_last()[w] == sub[k];
            assert(s[w] == s.filter(pred)[k]);
        } else {
            assert(s.filter(pred)[k] == s.last());
            assert(s[s.len() - 1] == s.last());
        }
    }
}

/// The values of one more entry: the values so far, plus that entry's value
/// when the name matches.
pub proof fn lemma_values_take_step(entries: Seq<(Seq<u8>, Seq<u8>)>, name: Seq<u8>, i: int)
    requires
        0 <= i < entries.len(),
    ensures
        spec_values_of(entries.take(i + 1), name) == if entries[i].0 == name {
            spec_values_of(entries.take(i), name).push(entries[i].1)
        } else {
            spec_values_of(entries.take(i), name)
        },
{
    let pred = name_is(name);
    lemma_filter_take_step(entries, pred, i);
    assert(entries.take(i + 1).filter(pred) == if pred(entries[i]) {
        entries.take(i).filter(pred).push(entries[i])
    } else {
        entries.take(i).filter(pred)
    });
    if entries[i].0 == name {
        assert(spec_values_of(entries.take(i + 1), name) =~= spec_values_of(
            entries.take(i),
            name,
        ).push(entries[i].1));
    } else {
        assert(spec_values_of(entries.take(i + 1), name) =~= spec_values_of(
            entries.take(i),
            name,
        ));
    }
}

/// Under well-formedness no header name or value contains a NUL byte, so an
/// enumeration step writes items that end with exactly one NUL: the
/// terminator it appends.
pub proof fn lemma_enumerated_items_nul_free(entries: Seq<(Seq<u8>, Seq<u8>)>, name: Seq<u8>)
    requires
        headers_wf(entries),
    ensures
        forall|n: Seq<u8>| #[trigger] spec_names(entries).contains(n) ==> forall|i: int|
            0 <= i < n.len() ==> n[i] != 0,
        forall|v: Seq<u8>| #[trigger] spec_values_of(entries, name).contains(v) ==> forall|i: int|
            0 <= i < v.len() ==> v[i] != 0,
{
    assert forall|n: Seq<u8>| #[trigger] spec_names(entries).contains(n) implies forall|i: int|
        0 <= i < n.len() ==> n[i] != 0 by {
        let w = choose|w: int| 0 <= w < spec_names(entries).len() && spec_names(entries)[w] == n;
        assert(entries[w].0 == n);
        assert(valid_name(n));
    }
    assert forall|v: Seq<u8>| #[trigger] spec_values_of(entries, name).contains(v) implies forall|
        i: int,
    | 0 <= i < v.len() ==> v[i] != 0 by {
        let filtered = entries.filter(name_is(name));
        let w = choose|w: int|
            0 <= w < spec_values_of(entries, name).len() && spec_values_of(entries, name)[w] == v;
        assert(filtered[w].1 == v);
        lemma_filter_subset(entries, name_is(name), w);
        let e = choose|e: int| 0 <= e < entries.len() && entries[e] == filtered[w];
        assert(valid_value(v));
    }
}

/// The values of a whole header sequence split at `i`: those of the prefix
/// followed by those of the rest.
pub proof fn lemma_values_split(entries: Seq<(Seq<u8>, Seq<u8>)>, name: Seq<u8>, i: int)
    requires
        0 <= i <= entries.len(),
    ensures
        spec_values_of(entries, name) == spec_values_of(entries.take(i), name) + spec_values_of(
            entries.skip(i),
            name,
        ),
{
    broadcast use vstd::seq_lib::group_seq_properties;

    let pred = name_is(name);
    let f = entry_value();
    assert(entries =~= entries.take(i) + entries.skip(i));
    Seq::filter_distributes_over_add(entries.take(i), entries.skip(i), pred);
    assert((entries.take(i).filter(pred) + entries.skip(i).filter(pred)).map_values(f)
        =~= entries.take(i).filter(pred).map_values(f) + entries.skip(i).filter(pred).map_values(
        f,
    ));
}

} // verus!
