//! Physical streams: interface complexity levels, bit-exact field layouts,
//! physical stream descriptors and the signal lists derived from them.

use vstd::prelude::*;
use core::cmp::Ordering;

use crate::util::{clog2, log2_ceil};
use crate::{valid_name, BitCount, Error, Name, PathName, Positive};

verus! {

// ---------------------------------------------------------------------------
// Complexity
// ---------------------------------------------------------------------------

/// Interface complexity level: a hierarchical version number that specifies
/// the guarantees a source makes about how elements are transferred.
#[derive(Debug)]
pub struct Complexity {
    level: Vec<u32>,
}

impl View for Complexity {
    type V = Seq<u32>;

    closed spec fn view(&self) -> Seq<u32> {
        self.level@
    }
}

/// The component of a complexity level at an index, with missing trailing
/// components read as zero.
pub open spec fn cpx_component(s: Seq<u32>, i: int) -> u32 {
    if 0 <= i < s.len() {
        s[i]
    } else {
        0
    }
}

/// Two complexity levels are the same when every component matches, with the
/// shorter level padded with zeros on the right.
pub open spec fn cpx_eq(a: Seq<u32>, b: Seq<u32>) -> bool {
    forall|i: int| 0 <= i ==> cpx_component(a, i) == cpx_component(b, i)
}

/// A complexity level without its first component; the empty level stays empty.
pub open spec fn cpx_tail(s: Seq<u32>) -> Seq<u32> {
    if s.len() == 0 {
        s
    } else {
        s.skip(1)
    }
}

/// Lexicographic comparison of complexity levels, with the shorter level
/// padded with zeros on the right.
pub open spec fn cpx_cmp(a: Seq<u32>, b: Seq<u32>) -> Ordering
    decreases a.len() + b.len(),
{
    if a.len() == 0 && b.len() == 0 {
        Ordering::Equal
    } else {
        let x = cpx_component(a, 0);
        let y = cpx_component(b, 0);
        if x < y {
            Ordering::Less
        } else if x > y {
            Ordering::Greater
        } else {
            cpx_cmp(cpx_tail(a), cpx_tail(b))
        }
    }
}

proof fn lemma_cpx_component_tail(a: Seq<u32>, i: int)
    requires
        0 <= i,
    ensures
        cpx_component(cpx_tail(a), i) == cpx_component(a, i + 1),
{
}

/// The comparison returns `Equal` exactly on levels that are equal up to
/// trailing zeros.
pub proof fn lemma_cpx_cmp_equal(a: Seq<u32>, b: Seq<u32>)
    ensures
        cpx_cmp(a, b) == Ordering::Equal <==> cpx_eq(a, b),
    decreases a.len() + b.len(),
{
    if a.len() == 0 && b.len() == 0 {
        assert(cpx_eq(a, b));
    } else {
        let x = cpx_component(a, 0);
        let y = cpx_component(b, 0);
        if x == y {
            lemma_cpx_cmp_equal(cpx_tail(a), cpx_tail(b));
            if cpx_eq(cpx_tail(a), cpx_tail(b)) {
                assert forall|i: int| 0 <= i implies cpx_component(a, i) == cpx_component(
                    b,
                    i,
                ) by {
                    if i > 0 {
                        lemma_cpx_component_tail(a, i - 1);
                        lemma_cpx_component_tail(b, i - 1);
                        assert(cpx_component(cpx_tail(a), i - 1) == cpx_component(
                            cpx_tail(b),
                            i - 1,
                        ));
                    }
                };
            } else {
                let i = choose|i: int|
                    0 <= i && cpx_component(cpx_tail(a), i) != cpx_component(cpx_tail(b), i);
                lemma_cpx_component_tail(a, i);
                lemma_cpx_component_tail(b, i);
                assert(cpx_component(a, i + 1) != cpx_component(b, i + 1));
            }
        } else {
            assert(cpx_component(a, 0) != cpx_component(b, 0));
        }
    }
}

/// The comparison of two levels is decided at the first differing component.
proof fn lemma_cpx_cmp_diff(a: Seq<u32>, b: Seq<u32>, i: int)
    requires
        0 <= i,
        forall|j: int| 0 <= j < i ==> cpx_component(a, j) == cpx_component(b, j),
        cpx_component(a, i) != cpx_component(b, i),
    ensures
        cpx_cmp(a, b) == if cpx_component(a, i) < cpx_component(b, i) {
            Ordering::Less
        } else {
            Ordering::Greater
        },
    decreases i,
{
    if a.len() == 0 && b.len() == 0 {
        assert(false);
    } else if i == 0 {
    } else {
        assert(cpx_component(a, 0) == cpx_component(b, 0));
        assert forall|j: int| 0 <= j < i - 1 implies cpx_component(cpx_tail(a), j)
            == cpx_component(cpx_tail(b), j) by {
            lemma_cpx_component_tail(a, j);
            lemma_cpx_component_tail(b, j);
        };
        lemma_cpx_component_tail(a, i - 1);
        lemma_cpx_component_tail(b, i - 1);
        lemma_cpx_cmp_diff(cpx_tail(a), cpx_tail(b), i - 1);
    }
}

/// A complexity level equals itself extended by trailing zeros.
///
/// Law: complexity vectors that differ only by trailing zeros are equal.
pub proof fn lemma_cpx_trailing_zeros(a: Seq<u32>, b: Seq<u32>)
    requires
        a.len() <= b.len(),
        a == b.take(a.len() as int),
        forall|i: int| a.len() <= i < b.len() ==> b[i] == 0,
    ensures
        cpx_eq(a, b),
        cpx_cmp(a, b) == Ordering::Equal,
{
    assert forall|i: int| 0 <= i implies cpx_component(a, i) == cpx_component(b, i) by {
        if i < a.len() {
            assert(b.take(a.len() as int)[i] == b[i]);
        }
    };
    lemma_cpx_cmp_equal(a, b);
}

impl Clone for Complexity {
    fn clone(&self) -> (r: Self)
        ensures
            r@ == self@,
    {
        proof {
            use_type_invariant(self);
        }
        let mut level: Vec<u32> = Vec::new();
        let mut i: usize = 0;
        while i < self.level.len()
            invariant
                i <= self.level@.len(),
                level@ == self.level@.take(i as int),
            decreases self.level@.len() - i,
        {
            level.push(self.level[i]);
            proof {
                assert(level@ =~= self.level@.take((i + 1) as int));
            }
            i = i + 1;
        }
        proof {
            assert(level@ =~= self.level@);
        }
        Complexity { level }
    }
}

impl PartialEq for Complexity {
    /// Compares levels component by component, with the shorter level padded
    /// with zeros on the right.
    fn eq(&self, other: &Self) -> (r: bool) {
        let r = matches!(self.compare(other), Ordering::Equal);
        proof {
            lemma_cpx_cmp_equal(self@, other@);
        }
        r
    }
}

impl Eq for Complexity {}

impl vstd::std_specs::cmp::PartialEqSpecImpl for Complexity {
    open spec fn obeys_eq_spec() -> bool {
        true
    }

    open spec fn eq_spec(&self, other: &Complexity) -> bool {
        cpx_eq(self@, other@)
    }
}

impl PartialOrd for Complexity {
    /// Lexicographic comparison with missing trailing components read as zero.
    fn partial_cmp(&self, other: &Self) -> (r: Option<Ordering>) {
        Some(self.compare(other))
    }
}

impl vstd::std_specs::cmp::PartialOrdSpecImpl for Complexity {
    open spec fn obeys_partial_cmp_spec() -> bool {
        true
    }

    open spec fn partial_cmp_spec(&self, other: &Complexity) -> Option<Ordering> {
        Some(cpx_cmp(self@, other@))
    }
}

impl Complexity {
    #[verifier::type_invariant]
    spec fn inv(self) -> bool {
        self.level@.len() >= 1
    }

    /// Constructs a complexity with the provided level. Returns an error
    /// when the provided level vector is empty.
    pub fn new(level: Vec<u32>) -> (r: Result<Complexity, Error>)
        ensures
            r is Ok <==> level@.len() > 0,
            r is Ok ==> r->Ok_0@ == level@,
            r is Err ==> r->Err_0 is InvalidArgument && r->Err_0->InvalidArgument_0@
                == "complexity level cannot be empty"@,
    {
        if level.len() == 0 {
            Err(Error::InvalidArgument(String::from_str("complexity level cannot be empty")))
        } else {
            Ok(Complexity { level })
        }
    }

    /// Constructs a complexity with the provided major version alone.
    pub fn new_major(level: u32) -> (r: Complexity)
        ensures
            r@ == seq![level],
    {
        let r = Complexity { level: vec![level] };
        proof {
            assert(r@ =~= seq![level]);
        }
        r
    }

    /// The default complexity level.
    pub fn new_default() -> (r: Complexity)
        ensures
            r@ == seq![4u32],
    {
        Complexity::new_major(4)
    }

    /// Returns the level of this complexity.
    pub fn level(&self) -> (r: &Vec<u32>)
        ensures
            r@ == self@,
    {
        &self.level
    }

    /// Returns the major version of this complexity level.
    pub fn major(&self) -> (r: u32)
        ensures
            r == cpx_component(self@, 0),
    {
        proof {
            use_type_invariant(self);
        }
        self.level[0]
    }

    /// The rendering of a level from one index on: components joined by
    /// periods.
    pub open spec fn version_string_from(s: Seq<u32>, i: int) -> Seq<char>
        decreases s.len() - i,
    {
        if i < 0 || i >= s.len() {
            Seq::empty()
        } else if i == s.len() - 1 {
            crate::util::dec_str(s[i] as nat)
        } else {
            crate::util::dec_str(s[i] as nat) + "."@ + Self::version_string_from(s, i + 1)
        }
    }

    /// Renders the level as a version number: components joined by periods.
    pub fn version_string(&self) -> (r: String)
        ensures
            r@ == Self::version_string_from(self@, 0),
    {
        proof {
            use_type_invariant(self);
        }
        let mut i: usize = self.level.len() - 1;
        let mut tail = crate::util::u32_string(self.level[i]);
        while i > 0
            invariant
                i < self.level@.len(),
                tail@ == Self::version_string_from(self@, i as int),
            decreases i,
        {
            i = i - 1;
            let mut piece = crate::util::u32_string(self.level[i]);
            piece.append(".");
            piece.append(tail.as_str());
            tail = piece;
        }
        tail
    }

    /// Compares two complexity levels lexicographically, with missing
    /// trailing components read as zero.
    pub fn compare(&self, other: &Complexity) -> (r: Ordering)
        ensures
            r == cpx_cmp(self@, other@),
    {
        let a = &self.level;
        let b = &other.level;
        let alen = a.len();
        let blen = b.len();
        let n = if alen > blen {
            alen
        } else {
            blen
        };
        let mut i: usize = 0;
        while i < n
            invariant
                n == if alen > blen { alen } else { blen },
                alen == a@.len(),
                blen == b@.len(),
                a@ == self@,
                b@ == other@,
                i <= n,
                forall|j: int|
                    0 <= j < i ==> cpx_component(self@, j) == cpx_component(other@, j),
            decreases n - i,
        {
            let x = if i < alen {
                a[i]
            } else {
                0
            };
            let y = if i < blen {
                b[i]
            } else {
                0
            };
            proof {
                assert(x == cpx_component(self@, i as int));
                assert(y == cpx_component(other@, i as int));
            }
            if x < y {
                proof {
                    lemma_cpx_cmp_diff(self@, other@, i as int);
                }
                return Ordering::Less;
            } else if x > y {
                proof {
                    lemma_cpx_cmp_diff(self@, other@, i as int);
                }
                return Ordering::Greater;
            }
            i = i + 1;
        }
        proof {
            assert forall|j: int| 0 <= j implies cpx_component(self@, j) == cpx_component(
                other@,
                j,
            ) by {
                if j >= n {
                    assert(cpx_component(self@, j) == 0);
                    assert(cpx_component(other@, j) == 0);
                }
            };
            lemma_cpx_cmp_equal(self@, other@);
        }
        Ordering::Equal
    }
}

} // verus!

verus! {

// ---------------------------------------------------------------------------
// Fields: an insertion-ordered map from dotted paths to bit counts
// ---------------------------------------------------------------------------

/// What an ordered field map holds: dotted path names with their bit counts,
/// in insertion order.
pub uninterp spec fn field_map_entries(m: indexmap::IndexMap<PathName, Positive>) -> Seq<
    (Seq<Seq<char>>, u32),
>;

#[verifier::external_type_specification]
#[verifier::external_body]
#[verifier::reject_recursive_types(K)]
#[verifier::reject_recursive_types(V)]
#[verifier::reject_recursive_types(S)]
pub struct ExIndexMap<K, V, S>(indexmap::IndexMap<K, V, S>);

/// No two entries share a path.
pub open spec fn unique_keys(es: Seq<(Seq<Seq<char>>, u32)>) -> bool {
    forall|i: int, j: int| 0 <= i < j < es.len() ==> (#[trigger] es[i]).0 != (#[trigger] es[j]).0
}

/// Every entry carries at least one bit.
pub open spec fn widths_positive(es: Seq<(Seq<Seq<char>>, u32)>) -> bool {
    forall|i: int| 0 <= i < es.len() ==> (#[trigger] es[i]).1 >= 1
}

/// The combined width of all entries.
pub open spec fn sum_widths(es: Seq<(Seq<Seq<char>>, u32)>) -> nat
    decreases es.len(),
{
    if es.len() == 0 {
        0
    } else {
        (sum_widths(es.drop_last()) + es.last().1) as nat
    }
}

/// Adding one entry adds its width to the sum.
pub proof fn lemma_sum_widths_take(es: Seq<(Seq<Seq<char>>, u32)>, i: int)
    requires
        0 <= i < es.len(),
    ensures
        sum_widths(es.take(i + 1)) == sum_widths(es.take(i)) + es[i].1,
{
    assert(es.take(i + 1).drop_last() =~= es.take(i));
    assert(es.take(i + 1).last() == es[i]);
}

/// The whole sequence is its own full prefix.
pub proof fn lemma_sum_widths_full(es: Seq<(Seq<Seq<char>>, u32)>)
    ensures
        sum_widths(es.take(es.len() as int)) == sum_widths(es),
{
    assert(es.take(es.len() as int) =~= es);
}

/// Relies on indexmap::IndexMap::new: a freshly created map is empty.
#[verifier::external_body]
fn field_map_new() -> (r: indexmap::IndexMap<PathName, Positive>)
    ensures
        field_map_entries(r).len() == 0,
{
    indexmap::IndexMap::new()
}

/// Relies on indexmap::IndexMap::insert: when an equivalent key is already
/// present it keeps its place in the order and only its value is replaced,
/// with the old value returned; a new key is appended last and `None` is
/// returned. Key equivalence is the derived equality of `PathName`, which
/// compares the underlying strings.
#[verifier::external_body]
fn field_map_insert(
    m: &mut indexmap::IndexMap<PathName, Positive>,
    k: PathName,
    v: Positive,
) -> (r: Option<Positive>)
    ensures
        ({
            let es = field_map_entries(*old(m));
            let es2 = field_map_entries(*final(m));
            unique_keys(es) ==> {
                if exists|i: int| 0 <= i < es.len() && (#[trigger] es[i]).0 == k@ {
                    let i = choose|i: int| 0 <= i < es.len() && (#[trigger] es[i]).0 == k@;
                    &&& es2 == es.update(i, (k@, v@))
                    &&& r is Some
                    &&& r->0@ == es[i].1
                } else {
                    &&& es2 == es.push((k@, v@))
                    &&& r is None
                }
            }
        }),
{
    m.insert(k, v)
}

/// Relies on indexmap::IndexMap::len.
#[verifier::external_body]
fn field_map_len(m: &indexmap::IndexMap<PathName, Positive>) -> (r: usize)
    ensures
        r == field_map_entries(*m).len(),
{
    m.len()
}

/// Relies on indexmap::IndexMap::iter: entries are yielded in insertion order.
#[verifier::external_body]
fn field_map_to_vec(m: &indexmap::IndexMap<PathName, Positive>) -> (r: Vec<(PathName, Positive)>)
    ensures
        r@.len() == field_map_entries(*m).len(),
        forall|i: int|
            0 <= i < r@.len() ==> (#[trigger] r@[i]).0@ == field_map_entries(*m)[i].0 && r@[i].1@
                == field_map_entries(*m)[i].1,
{
    m.iter().map(|(k, v)| (k.clone(), *v)).collect()
}

/// The fields of a physical stream: an insertion-ordered map from dotted
/// path names to positive bit counts, with no duplicate paths.
#[derive(Debug)]
pub struct Fields {
    map: indexmap::IndexMap<PathName, Positive>,
}

impl View for Fields {
    type V = Seq<(Seq<Seq<char>>, u32)>;

    closed spec fn view(&self) -> Seq<(Seq<Seq<char>>, u32)> {
        field_map_entries(self.map)
    }
}

impl Fields {
    #[verifier::type_invariant]
    spec fn inv(self) -> bool {
        unique_keys(self@) && widths_positive(self@)
    }

    /// An empty field map.
    pub fn new_empty() -> (r: Fields)
        ensures
            r@ == Seq::<(Seq<Seq<char>>, u32)>::empty(),
    {
        let map = field_map_new();
        let r = Fields { map };
        proof {
            assert(r@ =~= Seq::<(Seq<Seq<char>>, u32)>::empty());
        }
        r
    }

    /// Builds a field map from a list of entries. Returns an error when two
    /// entries share a path.
    pub fn new(entries: Vec<(PathName, BitCount)>) -> (r: Result<Fields, Error>)
        ensures
            r is Ok <==> unique_keys(
                entries@.map_values(|e: (PathName, BitCount)| (e.0@, e.1@)),
            ),
            r is Ok ==> r->Ok_0@ == entries@.map_values(|e: (PathName, BitCount)| (e.0@, e.1@)),
            r is Err ==> r->Err_0 is UnexpectedDuplicate,
    {
        let ghost vs = entries@.map_values(|e: (PathName, BitCount)| (e.0@, e.1@));
        let mut fields = Fields::new_empty();
        let mut i: usize = 0;
        while i < entries.len()
            invariant
                i <= entries@.len(),
                vs == entries@.map_values(|e: (PathName, BitCount)| (e.0@, e.1@)),
                fields@ == vs.take(i as int),
            decreases entries@.len() - i,
        {
            let k = entries[i].0.clone();
            let v = entries[i].1;
            match fields.insert(k, v) {
                Ok(()) => {
                    proof {
                        assert(fields@ =~= vs.take((i + 1) as int));
                    }
                }
                Err(e) => {
                    proof {
                        let j = choose|j: int|
                            0 <= j < vs.take(i as int).len() && (#[trigger] vs.take(i as int)[j]).0
                                == vs[i as int].0;
                        assert(vs[j].0 == vs[i as int].0);
                        assert(!unique_keys(vs));
                    }
                    return Err(e);
                }
            }
            i = i + 1;
        }
        proof {
            use_type_invariant(&fields);
            assert(fields@ =~= vs);
        }
        Ok(fields)
    }

    /// Appends one field. Returns an error when the path is already present;
    /// the duplicate path's width is then replaced, as the caller abandons
    /// the map.
    pub fn insert(&mut self, path_name: PathName, bit_count: BitCount) -> (r: Result<(), Error>)
        ensures
            r is Ok <==> !(exists|i: int|
                0 <= i < old(self)@.len() && (#[trigger] old(self)@[i]).0 == path_name@),
            r is Ok ==> final(self)@ == old(self)@.push((path_name@, bit_count@)),
            r is Err ==> r->Err_0 is UnexpectedDuplicate,
    {
        proof {
            use_type_invariant(&*self);
        }
        let ghost k = path_name@;
        let ghost w = bit_count@;
        proof {
            use_type_invariant(&bit_count);
        }
        let mut map = field_map_new();
        core::mem::swap(&mut self.map, &mut map);
        let dup = field_map_insert(&mut map, path_name, bit_count);
        proof {
            let es = old(self)@;
            let es2 = field_map_entries(map);
            assert(widths_positive(es2));
            assert(unique_keys(es2)) by {
                if exists|i: int| 0 <= i < es.len() && (#[trigger] es[i]).0 == k {
                    let i = choose|i: int| 0 <= i < es.len() && (#[trigger] es[i]).0 == k;
                    assert(es2 == es.update(i, (k, w)));
                    assert forall|p: int, q: int| 0 <= p < q < es2.len() implies (
                    #[trigger] es2[p]).0 != (#[trigger] es2[q]).0 by {
                        assert(es2[p].0 == es[p].0 && es2[q].0 == es[q].0);
                    };
                } else {
                    assert forall|p: int, q: int| 0 <= p < q < es2.len() implies (
                    #[trigger] es2[p]).0 != (#[trigger] es2[q]).0 by {
                        if q < es.len() {
                            assert(es2[p] == es[p] && es2[q] == es[q]);
                        } else {
                            assert(es2[q].0 == k);
                            assert(es2[p] == es[p]);
                        }
                    };
                }
            };
        }
        core::mem::swap(&mut self.map, &mut map);
        match dup {
            None => Ok(()),
            Some(_) => Err(Error::UnexpectedDuplicate),
        }
    }

    /// The entries, in insertion order.
    pub fn to_vec(&self) -> (r: Vec<(PathName, BitCount)>)
        ensures
            r@.len() == self@.len(),
            forall|i: int|
                0 <= i < r@.len() ==> (#[trigger] r@[i]).0@ == self@[i].0 && r@[i].1@
                    == self@[i].1,
    {
        field_map_to_vec(&self.map)
    }

    /// The number of fields.
    pub fn len(&self) -> (r: usize)
        ensures
            r == self@.len(),
    {
        field_map_len(&self.map)
    }

    /// The combined width of all fields, when it fits the unsigned range.
    pub fn width_sum(&self) -> (r: Option<u32>)
        ensures
            r is Some <==> sum_widths(self@) <= u32::MAX,
            r is Some ==> r->0 == sum_widths(self@),
    {
        let items = self.to_vec();
        let mut acc: u64 = 0;
        let mut i: usize = 0;
        proof {
            assert(sum_widths(self@.take(0)) == 0) by {
                assert(self@.take(0) =~= Seq::<(Seq<Seq<char>>, u32)>::empty());
            };
        }
        while i < items.len()
            invariant
                i <= items@.len(),
                items@.len() == self@.len(),
                forall|j: int|
                    0 <= j < items@.len() ==> (#[trigger] items@[j]).0@ == self@[j].0
                        && items@[j].1@ == self@[j].1,
                acc == sum_widths(self@.take(i as int)),
                acc <= u32::MAX,
            decreases items@.len() - i,
        {
            proof {
                lemma_sum_widths_take(self@, i as int);
            }
            let w = items[i].1.get();
            if acc + (w as u64) > 0xffff_ffffu64 {
                proof {
                    lemma_sum_prefix_monotone(self@, i + 1);
                }
                return None;
            }
            acc = acc + (w as u64);
            i = i + 1;
        }
        proof {
            lemma_sum_widths_full(self@);
        }
        Some(acc as u32)
    }
}

/// The sum over a prefix never exceeds the sum over the whole sequence.
pub proof fn lemma_sum_prefix_monotone(es: Seq<(Seq<Seq<char>>, u32)>, i: int)
    requires
        0 <= i <= es.len(),
    ensures
        sum_widths(es.take(i)) <= sum_widths(es),
    decreases es.len() - i,
{
    if i == es.len() {
        lemma_sum_widths_full(es);
    } else {
        lemma_sum_widths_take(es, i);
        lemma_sum_prefix_monotone(es, i + 1);
    }
}

} // verus!

verus! {

// ---------------------------------------------------------------------------
// Physical stream
// ---------------------------------------------------------------------------

/// The mathematical content of a physical stream: its five defining
/// attributes, with field maps as ordered sequences of path/width pairs.
#[verifier::ext_equal]
pub ghost struct PhysicalStreamV {
    pub element_fields: Seq<(Seq<Seq<char>>, u32)>,
    pub element_lanes: u32,
    pub dimensionality: u32,
    pub complexity: Seq<u32>,
    pub user: Seq<(Seq<Seq<char>>, u32)>,
}

/// Width of the `data` signal: combined element field width times lanes.
pub open spec fn data_bits(v: PhysicalStreamV) -> int {
    sum_widths(v.element_fields) * v.element_lanes
}

/// Width of the `last` signal: the dimensionality.
pub open spec fn last_bits(v: PhysicalStreamV) -> int {
    v.dimensionality as int
}

/// Width of the `stai` signal: lane index bits at complexity major 6 and up.
pub open spec fn stai_bits(v: PhysicalStreamV) -> int {
    if cpx_component(v.complexity, 0) >= 6 && v.element_lanes > 1 {
        clog2(v.element_lanes as nat) as int
    } else {
        0
    }
}

/// Width of the `endi` signal: lane index bits at complexity major 5 and up,
/// or with any dimensionality.
pub open spec fn endi_bits(v: PhysicalStreamV) -> int {
    if (cpx_component(v.complexity, 0) >= 5 || v.dimensionality >= 1) && v.element_lanes > 1 {
        clog2(v.element_lanes as nat) as int
    } else {
        0
    }
}

/// Width of the `strb` signal: one bit per lane at complexity major 7 and up,
/// or with any dimensionality.
pub open spec fn strb_bits(v: PhysicalStreamV) -> int {
    if cpx_component(v.complexity, 0) >= 7 || v.dimensionality >= 1 {
        v.element_lanes as int
    } else {
        0
    }
}

/// Width of the `user` signal: combined user field width.
pub open spec fn user_bits(v: PhysicalStreamV) -> int {
    sum_widths(v.user) as int
}

/// Combined width of all signals except `valid` and `ready`.
pub open spec fn total_bits(v: PhysicalStreamV) -> int {
    data_bits(v) + last_bits(v) + stai_bits(v) + endi_bits(v) + strb_bits(v) + user_bits(v)
}

/// Physical stream: a bit-exact signal layout carrying a stream of elements,
/// dimensionality information and user-defined transfer information.
#[derive(Debug)]
pub struct PhysicalStream {
    element_fields: Fields,
    element_lanes: Positive,
    dimensionality: u32,
    complexity: Complexity,
    user: Fields,
}

impl View for PhysicalStream {
    type V = PhysicalStreamV;

    closed spec fn view(&self) -> PhysicalStreamV {
        PhysicalStreamV {
            element_fields: self.element_fields@,
            element_lanes: self.element_lanes@,
            dimensionality: self.dimensionality,
            complexity: self.complexity@,
            user: self.user@,
        }
    }
}

impl PhysicalStream {
    #[verifier::type_invariant]
    spec fn inv(self) -> bool {
        &&& total_bits(self@) <= u32::MAX
        &&& self.element_lanes@ >= 1
    }

    /// Constructs a physical stream from already validated parts. The
    /// combined signal width must fit the unsigned range.
    pub fn new(
        element_fields: Fields,
        element_lanes: Positive,
        dimensionality: u32,
        complexity: Complexity,
        user: Fields,
    ) -> (r: PhysicalStream)
        requires
            total_bits(
                PhysicalStreamV {
                    element_fields: element_fields@,
                    element_lanes: element_lanes@,
                    dimensionality: dimensionality,
                    complexity: complexity@,
                    user: user@,
                },
            ) <= u32::MAX,
        ensures
            r@ == (PhysicalStreamV {
                element_fields: element_fields@,
                element_lanes: element_lanes@,
                dimensionality: dimensionality,
                complexity: complexity@,
                user: user@,
            }),
    {
        let lanes_check: u32 = element_lanes.get();
        PhysicalStream { element_fields, element_lanes, dimensionality, complexity, user }
    }

    /// Returns the element fields in this physical stream.
    pub fn element_fields(&self) -> (r: &Fields)
        ensures
            r@ == self@.element_fields,
    {
        &self.element_fields
    }

    /// Returns the number of element lanes in this physical stream.
    pub fn element_lanes(&self) -> (r: Positive)
        ensures
            r@ == self@.element_lanes,
    {
        self.element_lanes
    }

    /// Returns the dimensionality of this physical stream.
    pub fn dimensionality(&self) -> (r: u32)
        ensures
            r == self@.dimensionality,
    {
        self.dimensionality
    }

    /// Returns the complexity of this physical stream.
    pub fn complexity(&self) -> (r: &Complexity)
        ensures
            r@ == self@.complexity,
    {
        &self.complexity
    }

    /// Returns the user fields in this physical stream.
    pub fn user(&self) -> (r: &Fields)
        ensures
            r@ == self@.user,
    {
        &self.user
    }

    /// The bit count of the data fields: the combined bit count of all
    /// element fields multiplied by the number of lanes.
    pub fn data_bit_count(&self) -> (r: u32)
        ensures
            r == data_bits(self@),
    {
        proof {
            use_type_invariant(self);
        }
        let lanes = self.element_lanes.get();
        let sum = match self.element_fields.width_sum() {
            Some(s) => s,
            None => {
                proof {
                    assert(sum_widths(self@.element_fields) <= sum_widths(self@.element_fields)
                        * self@.element_lanes) by (nonlinear_arith)
                        requires
                            self@.element_lanes >= 1,
                    ;
                    assert(false);
                }
                0
            }
        };
        let wide = (sum as u64) * (lanes as u64);
        proof {
            assert(last_bits(self@) >= 0 && stai_bits(self@) >= 0 && endi_bits(self@) >= 0
                && strb_bits(self@) >= 0 && user_bits(self@) >= 0);
            assert(wide == data_bits(self@));
        }
        wide as u32
    }

    /// The number of `last` bits: the dimensionality.
    pub fn last_bit_count(&self) -> (r: u32)
        ensures
            r == last_bits(self@),
    {
        self.dimensionality
    }

    /// The number of `stai` (start index) bits.
    pub fn stai_bit_count(&self) -> (r: u32)
        ensures
            r == stai_bits(self@),
    {
        if self.complexity.major() >= 6 && self.element_lanes.get() > 1 {
            log2_ceil(self.element_lanes)
        } else {
            0
        }
    }

    /// The number of `endi` (end index) bits.
    pub fn endi_bit_count(&self) -> (r: u32)
        ensures
            r == endi_bits(self@),
    {
        if (self.complexity.major() >= 5 || self.dimensionality >= 1)
            && self.element_lanes.get() > 1 {
            log2_ceil(self.element_lanes)
        } else {
            0
        }
    }

    /// The number of `strb` (strobe) bits.
    pub fn strb_bit_count(&self) -> (r: u32)
        ensures
            r == strb_bits(self@),
    {
        if self.complexity.major() >= 7 || self.dimensionality >= 1 {
            self.element_lanes.get()
        } else {
            0
        }
    }

    /// The bit count of the user fields.
    pub fn user_bit_count(&self) -> (r: u32)
        ensures
            r == user_bits(self@),
    {
        proof {
            use_type_invariant(self);
        }
        match self.user.width_sum() {
            Some(s) => s,
            None => {
                proof {
                    assert(data_bits(self@) >= 0) by (nonlinear_arith)
                        requires
                            self@.element_lanes >= 1,
                    ;
                    assert(false);
                }
                0
            }
        }
    }

    /// The signal list for this physical stream.
    pub fn signal_list(&self) -> (r: SignalList)
        ensures
            r == signal_list_spec(self@),
    {
        SignalList {
            data: opt_width(self.data_bit_count()),
            last: opt_width(self.last_bit_count()),
            stai: opt_width(self.stai_bit_count()),
            endi: opt_width(self.endi_bit_count()),
            strb: opt_width(self.strb_bit_count()),
            user: opt_width(self.user_bit_count()),
        }
    }

    /// The combined bit count of all signals, excluding `valid` and `ready`.
    ///
    /// Law: the total equals the sum of the six per-signal bit counts.
    pub fn bit_count(&self) -> (r: u32)
        ensures
            r == total_bits(self@),
            r == data_bits(self@) + last_bits(self@) + stai_bits(self@) + endi_bits(self@)
                + strb_bits(self@) + user_bits(self@),
    {
        proof {
            use_type_invariant(self);
        }
        let total = (self.data_bit_count() as u64) + (self.last_bit_count() as u64) + (
        self.stai_bit_count() as u64) + (self.endi_bit_count() as u64) + (
        self.strb_bit_count() as u64) + (self.user_bit_count() as u64);
        total as u32
    }
}

/// Wraps a width as present when it is non-zero.
fn opt_width(w: u32) -> (r: Option<u32>)
    ensures
        r == zero_to_none(w as int),
{
    if w == 0 {
        None
    } else {
        Some(w)
    }
}

/// A width as an optional signal width: zero means the signal is absent.
pub open spec fn zero_to_none(n: int) -> Option<u32> {
    if n == 0 {
        None
    } else {
        Some(n as u32)
    }
}

/// The signal list a physical stream derives to.
pub open spec fn signal_list_spec(v: PhysicalStreamV) -> SignalList {
    SignalList {
        data: zero_to_none(data_bits(v)),
        last: zero_to_none(last_bits(v)),
        stai: zero_to_none(stai_bits(v)),
        endi: zero_to_none(endi_bits(v)),
        strb: zero_to_none(strb_bits(v)),
        user: zero_to_none(user_bits(v)),
    }
}

// ---------------------------------------------------------------------------
// Signals
// ---------------------------------------------------------------------------

/// Who drives a signal: the stream's producer or its consumer.
#[derive(Debug, Clone, Copy, PartialEq, Eq, Structural, Hash)]
pub enum Origin {
    Source,
    Sink,
}

/// The width of a signal: a lone wire or a vector of them.
#[derive(Debug, Clone, Copy, PartialEq, Eq, Structural, Hash)]
pub enum Width {
    /// Non-vectorized single bit.
    Scalar,
    /// Vectorized multiple bits.
    Vector(u32),
}

/// The mathematical content of a signal.
#[verifier::ext_equal]
pub ghost struct SignalV {
    pub name: Seq<char>,
    pub origin: Origin,
    pub width: Width,
}

/// A named signal with an origin and a width.
#[derive(Debug, PartialEq)]
pub struct Signal {
    name: String,
    origin: Origin,
    width: Width,
}

impl View for Signal {
    type V = SignalV;

    closed spec fn view(&self) -> SignalV {
        SignalV { name: self.name@, origin: self.origin, width: self.width }
    }
}

impl Clone for Signal {
    fn clone(&self) -> (r: Self)
        ensures
            r@ == self@,
    {
        Signal { name: self.name.clone(), origin: self.origin, width: self.width }
    }
}

impl Signal {
    /// A vector-style signal when the width is present.
    pub fn opt_vec(name: &str, origin: Origin, width: Option<u32>) -> (r: Option<Signal>)
        ensures
            r is Some <==> width is Some,
            r is Some ==> r->0@ == (SignalV {
                name: name@,
                origin,
                width: Width::Vector(width->0),
            }),
    {
        match width {
            Some(w) => Some(
                Signal { name: String::from_str(name), origin, width: Width::Vector(w) },
            ),
            None => None,
        }
    }

    /// A vector-style signal.
    pub fn vec(name: &str, origin: Origin, width: Positive) -> (r: Signal)
        ensures
            r@ == (SignalV { name: name@, origin, width: Width::Vector(width@) }),
    {
        Signal { name: String::from_str(name), origin, width: Width::Vector(width.get()) }
    }

    /// A single bit non-vector style signal.
    pub fn bit(name: &str, origin: Origin) -> (r: Signal)
        ensures
            r@ == (SignalV { name: name@, origin, width: Width::Scalar }),
    {
        Signal { name: String::from_str(name), origin, width: Width::Scalar }
    }

    /// Whether the signal is reversed with respect to the source.
    pub fn reversed(&self) -> (r: bool)
        ensures
            r <==> self@.origin is Sink,
    {
        matches!(self.origin, Origin::Sink)
    }

    /// The origin of the signal.
    pub fn origin(&self) -> (r: Origin)
        ensures
            r == self@.origin,
    {
        self.origin
    }

    /// The width of the signal.
    pub fn width(&self) -> (r: Width)
        ensures
            r == self@.width,
    {
        self.width
    }

    /// This signal under another name.
    pub fn with_name(&self, name: String) -> (r: Signal)
        ensures
            r@ == (SignalV { name: name@, origin: self@.origin, width: self@.width }),
    {
        Signal { name, origin: self.origin, width: self.width }
    }

    /// The name of the signal.
    pub fn identifier(&self) -> (r: &str)
        ensures
            r@ == self@.name,
    {
        self.name.as_str()
    }
}

/// Signal list for the signals in a physical stream: the optional widths of
/// the six content-carrying signals. An absent entry means the signal does
/// not exist; `valid` and `ready` always exist.
#[derive(Debug, Clone, Copy, PartialEq, Eq, Structural)]
pub struct SignalList {
    pub data: Option<u32>,
    pub last: Option<u32>,
    pub stai: Option<u32>,
    pub endi: Option<u32>,
    pub strb: Option<u32>,
    pub user: Option<u32>,
}

/// An optional width read as zero when absent.
pub open spec fn width_or_zero(w: Option<u32>) -> int {
    match w {
        Some(x) => x as int,
        None => 0,
    }
}

/// The combined bit count of a signal list.
pub open spec fn sl_total(sl: SignalList) -> int {
    width_or_zero(sl.data) + width_or_zero(sl.last) + width_or_zero(sl.stai) + width_or_zero(
        sl.endi,
    ) + width_or_zero(sl.strb) + width_or_zero(sl.user)
}

/// The views of an optional vector signal: one signal when present.
pub open spec fn opt_sig_views(name: Seq<char>, w: Option<u32>) -> Seq<SignalV> {
    match w {
        Some(x) => seq![SignalV { name, origin: Origin::Source, width: Width::Vector(x) }],
        None => Seq::empty(),
    }
}

/// The signals of a list in their fixed order: `valid`, `ready`, then the
/// present ones among `data`, `last`, `stai`, `endi`, `strb`, `user`.
pub open spec fn signal_list_views(sl: SignalList) -> Seq<SignalV> {
    seq![
        SignalV { name: "valid"@, origin: Origin::Source, width: Width::Scalar },
        SignalV { name: "ready"@, origin: Origin::Sink, width: Width::Scalar },
    ] + opt_sig_views("data"@, sl.data) + opt_sig_views("last"@, sl.last) + opt_sig_views(
        "stai"@,
        sl.stai,
    ) + opt_sig_views("endi"@, sl.endi) + opt_sig_views("strb"@, sl.strb) + opt_sig_views(
        "user"@,
        sl.user,
    )
}

impl SignalList {
    /// The always-present `valid` signal, driven by the source.
    pub fn valid(&self) -> (r: Signal)
        ensures
            r@ == (SignalV { name: "valid"@, origin: Origin::Source, width: Width::Scalar }),
    {
        Signal::bit("valid", Origin::Source)
    }

    /// The always-present `ready` signal, driven by the sink.
    pub fn ready(&self) -> (r: Signal)
        ensures
            r@ == (SignalV { name: "ready"@, origin: Origin::Sink, width: Width::Scalar }),
    {
        Signal::bit("ready", Origin::Sink)
    }

    /// The `data` signal, when present.
    pub fn data(&self) -> (r: Option<Signal>)
        ensures
            r is Some <==> self.data is Some,
            r is Some ==> r->0@ == (SignalV {
                name: "data"@,
                origin: Origin::Source,
                width: Width::Vector(self.data->0),
            }),
    {
        Signal::opt_vec("data", Origin::Source, self.data)
    }

    /// The `last` signal, when present.
    pub fn last(&self) -> (r: Option<Signal>)
        ensures
            r is Some <==> self.last is Some,
            r is Some ==> r->0@ == (SignalV {
                name: "last"@,
                origin: Origin::Source,
                width: Width::Vector(self.last->0),
            }),
    {
        Signal::opt_vec("last", Origin::Source, self.last)
    }

    /// The `stai` signal, when present.
    pub fn stai(&self) -> (r: Option<Signal>)
        ensures
            r is Some <==> self.stai is Some,
            r is Some ==> r->0@ == (SignalV {
                name: "stai"@,
                origin: Origin::Source,
                width: Width::Vector(self.stai->0),
            }),
    {
        Signal::opt_vec("stai", Origin::Source, self.stai)
    }

    /// The `endi` signal, when present.
    pub fn endi(&self) -> (r: Option<Signal>)
        ensures
            r is Some <==> self.endi is Some,
            r is Some ==> r->0@ == (SignalV {
                name: "endi"@,
                origin: Origin::Source,
                width: Width::Vector(self.endi->0),
            }),
    {
        Signal::opt_vec("endi", Origin::Source, self.endi)
    }

    /// The `strb` signal, when present.
    pub fn strb(&self) -> (r: Option<Signal>)
        ensures
            r is Some <==> self.strb is Some,
            r is Some ==> r->0@ == (SignalV {
                name: "strb"@,
                origin: Origin::Source,
                width: Width::Vector(self.strb->0),
            }),
    {
        Signal::opt_vec("strb", Origin::Source, self.strb)
    }

    /// The `user` signal, when present.
    pub fn user(&self) -> (r: Option<Signal>)
        ensures
            r is Some <==> self.user is Some,
            r is Some ==> r->0@ == (SignalV {
                name: "user"@,
                origin: Origin::Source,
                width: Width::Vector(self.user->0),
            }),
    {
        Signal::opt_vec("user", Origin::Source, self.user)
    }

    /// The bit count of all combined signals, or nothing when it is zero.
    pub fn opt_bit_count(&self) -> (r: Option<u32>)
        requires
            sl_total(*self) <= u32::MAX,
        ensures
            r == zero_to_none(sl_total(*self)),
    {
        let total = (unwrap_or_zero(self.data) as u64) + (unwrap_or_zero(self.last) as u64) + (
        unwrap_or_zero(self.stai) as u64) + (unwrap_or_zero(self.endi) as u64) + (
        unwrap_or_zero(self.strb) as u64) + (unwrap_or_zero(self.user) as u64);
        if total == 0 {
            None
        } else {
            Some(total as u32)
        }
    }

    /// The bit count of all combined signals.
    pub fn bit_count(&self) -> (r: u32)
        requires
            sl_total(*self) <= u32::MAX,
        ensures
            r == sl_total(*self),
    {
        match self.opt_bit_count() {
            Some(c) => c,
            None => 0,
        }
    }

    /// All signals, in their fixed order: `valid`, `ready`, then the present
    /// ones among `data`, `last`, `stai`, `endi`, `strb`, `user`.
    pub fn to_vec(&self) -> (r: Vec<Signal>)
        ensures
            r@.map_values(|s: Signal| s@) == signal_list_views(*self),
    {
        let ghost f = |s: Signal| s@;
        let ghost g0 = seq![
            SignalV { name: "valid"@, origin: Origin::Source, width: Width::Scalar },
            SignalV { name: "ready"@, origin: Origin::Sink, width: Width::Scalar },
        ];
        let ghost g1 = g0 + opt_sig_views("data"@, self.data);
        let ghost g2 = g1 + opt_sig_views("last"@, self.last);
        let ghost g3 = g2 + opt_sig_views("stai"@, self.stai);
        let ghost g4 = g3 + opt_sig_views("endi"@, self.endi);
        let ghost g5 = g4 + opt_sig_views("strb"@, self.strb);
        let ghost g6 = g5 + opt_sig_views("user"@, self.user);
        let mut out: Vec<Signal> = Vec::new();
        out.push(self.valid());
        out.push(self.ready());
        proof {
            assert(out@.map_values(f) =~= g0);
        }
        if let Some(s) = self.data() {
            out.push(s);
        }
        proof {
            assert(out@.map_values(f) =~= g1);
        }
        if let Some(s) = self.last() {
            out.push(s);
        }
        proof {
            assert(out@.map_values(f) =~= g2);
        }
        if let Some(s) = self.stai() {
            out.push(s);
        }
        proof {
            assert(out@.map_values(f) =~= g3);
        }
        if let Some(s) = self.endi() {
            out.push(s);
        }
        proof {
            assert(out@.map_values(f) =~= g4);
        }
        if let Some(s) = self.strb() {
            out.push(s);
        }
        proof {
            assert(out@.map_values(f) =~= g5);
        }
        if let Some(s) = self.user() {
            out.push(s);
        }
        proof {
            assert(out@.map_values(f) =~= g6);
            assert(g6 =~= signal_list_views(*self));
        }
        out
    }
}

/// Whether a built signal vector matches the fixed signal order of a list.
pub open spec fn r_views_ok(out: Seq<Signal>, sl: SignalList) -> bool {
    out.map_values(|s: Signal| s@) == signal_list_views(sl)
}

/// An optional width read as zero when absent.
fn unwrap_or_zero(w: Option<u32>) -> (r: u32)
    ensures
        r == width_or_zero(w),
{
    match w {
        Some(x) => x,
        None => 0,
    }
}

} // verus!

verus! {

// ---------------------------------------------------------------------------
// Building physical streams from raw parts
// ---------------------------------------------------------------------------

/// Whether a raw field list is well formed: every entry has a valid name and
/// a width between one and the largest representable bit count.
pub open spec fn raw_fields_ok(xs: Seq<(&str, usize)>) -> bool {
    forall|i: int|
        0 <= i < xs.len() ==> valid_name((#[trigger] xs[i]).0@) && 1 <= xs[i].1 <= u32::MAX
}

/// The field entries a raw list stands for: single-segment paths with widths.
pub open spec fn raw_field_views(xs: Seq<(&str, usize)>) -> Seq<(Seq<Seq<char>>, u32)> {
    xs.map_values(|e: (&str, usize)| (seq![e.0@], e.1 as u32))
}

/// Builds a field map from raw name/width pairs. A malformed name or width
/// is an invalid argument; a repeated path among well-formed entries is a
/// duplicate.
fn build_fields(raw: &Vec<(&str, usize)>) -> (r: Result<Fields, Error>)
    ensures
        r is Ok <==> raw_fields_ok(raw@) && unique_keys(raw_field_views(raw@)),
        r is Ok ==> r->Ok_0@ == raw_field_views(raw@),
        r is Err ==> (r->Err_0 is InvalidArgument || r->Err_0 is UnexpectedDuplicate),
        r is Err ==> (r->Err_0 is UnexpectedDuplicate <==> raw_fields_ok(raw@) && !unique_keys(
            raw_field_views(raw@),
        )),
{
    let ghost views = raw_field_views(raw@);
    let mut entries: Vec<(PathName, BitCount)> = Vec::new();
    let mut i: usize = 0;
    while i < raw.len()
        invariant
            i <= raw@.len(),
            views == raw_field_views(raw@),
            entries@.len() == i,
            forall|j: int| 0 <= j < i ==> valid_name((#[trigger] raw@[j]).0@) && 1 <= raw@[j].1
                <= u32::MAX,
            forall|j: int| 0 <= j < i ==> (#[trigger] entries@[j]).0@ == views[j].0
                && entries@[j].1@ == views[j].1,
        decreases raw@.len() - i,
    {
        let name = match Name::try_new(raw[i].0) {
            Ok(n) => n,
            Err(e) => {
                proof {
                    assert(!valid_name((#[trigger] raw@[i as int]).0@));
                    assert(!raw_fields_ok(raw@));
                }
                return Err(e);
            }
        };
        let w = raw[i].1;
        if w == 0 || w > 0xffff_ffffusize {
            proof {
                assert(!((#[trigger] raw@[i as int]).1 >= 1 && raw@[i as int].1 <= u32::MAX));
                assert(!raw_fields_ok(raw@));
            }
            return Err(Error::InvalidArgument(String::from_str("bit count cannot be zero")));
        }
        let width = match Positive::new(w as u32) {
            Some(p) => p,
            None => {
                return Err(Error::InvalidArgument(String::from_str("bit count cannot be zero")));
            }
        };
        entries.push((PathName::from_name(name), width));
        i = i + 1;
    }
    proof {
        assert(entries@.map_values(|e: (PathName, BitCount)| (e.0@, e.1@)) =~= views);
    }
    match Fields::new(entries) {
        Ok(f) => Ok(f),
        Err(e) => Err(e),
    }
}

/// The descriptor that raw arguments stand for.
pub open spec fn raw_stream_view(
    element_fields: Seq<(&str, usize)>,
    element_lanes: usize,
    dimensionality: usize,
    complexity: Seq<u32>,
    user: Seq<(&str, usize)>,
) -> PhysicalStreamV {
    PhysicalStreamV {
        element_fields: raw_field_views(element_fields),
        element_lanes: element_lanes as u32,
        dimensionality: dimensionality as u32,
        complexity: complexity,
        user: raw_field_views(user),
    }
}

/// The causes that make building a physical stream fail with a duplicate
/// rather than an invalid argument, in the order the arguments are checked:
/// a repeated path among well-formed element fields, or, with the element
/// fields, lane count and dimensionality all sound, a repeated path among
/// well-formed user fields.
pub open spec fn raw_stream_duplicate(
    element_fields: Seq<(&str, usize)>,
    element_lanes: usize,
    dimensionality: usize,
    user: Seq<(&str, usize)>,
) -> bool {
    ||| (raw_fields_ok(element_fields) && !unique_keys(raw_field_views(element_fields)))
    ||| (raw_fields_ok(element_fields) && unique_keys(raw_field_views(element_fields)) && 1
        <= element_lanes <= u32::MAX && dimensionality <= u32::MAX && raw_fields_ok(user)
        && !unique_keys(raw_field_views(user)))
}

/// When raw arguments make a valid physical stream: well-formed unique
/// fields, a positive lane count, representable sizes, and a combined
/// signal width that fits the unsigned range.
pub open spec fn raw_stream_ok(
    element_fields: Seq<(&str, usize)>,
    element_lanes: usize,
    dimensionality: usize,
    complexity: Seq<u32>,
    user: Seq<(&str, usize)>,
) -> bool {
    &&& raw_fields_ok(element_fields)
    &&& unique_keys(raw_field_views(element_fields))
    &&& raw_fields_ok(user)
    &&& unique_keys(raw_field_views(user))
    &&& 1 <= element_lanes <= u32::MAX
    &&& dimensionality <= u32::MAX
    &&& total_bits(
        raw_stream_view(element_fields, element_lanes, dimensionality, complexity, user),
    ) <= u32::MAX
}

impl PhysicalStream {
    /// Constructs a physical stream from raw parts: element fields as
    /// name/width pairs, a lane count, a dimensionality, a complexity and
    /// user fields. Returns an error when any argument is out of range, a
    /// path is duplicated, or the combined signal width does not fit.
    pub fn try_new(
        element_fields: Vec<(&str, usize)>,
        element_lanes: usize,
        dimensionality: usize,
        complexity: Complexity,
        user: Vec<(&str, usize)>,
    ) -> (r: Result<PhysicalStream, Error>)
        ensures
            r is Ok <==> raw_stream_ok(
                element_fields@,
                element_lanes,
                dimensionality,
                complexity@,
                user@,
            ),
            r is Ok ==> r->Ok_0@ == raw_stream_view(
                element_fields@,
                element_lanes,
                dimensionality,
                complexity@,
                user@,
            ),
            r is Err ==> (r->Err_0 is InvalidArgument || r->Err_0 is UnexpectedDuplicate),
            r is Err ==> (r->Err_0 is UnexpectedDuplicate <==> raw_stream_duplicate(
                element_fields@,
                element_lanes,
                dimensionality,
                user@,
            )),
    {
        let ghost v = raw_stream_view(
            element_fields@,
            element_lanes,
            dimensionality,
            complexity@,
            user@,
        );
        let elems = match build_fields(&element_fields) {
            Ok(f) => f,
            Err(e) => {
                return Err(e);
            }
        };
        if element_lanes == 0 || element_lanes > 0xffff_ffffusize {
            return Err(Error::InvalidArgument(String::from_str("element lanes cannot be zero")));
        }
        if dimensionality > 0xffff_ffffusize {
            return Err(
                Error::InvalidArgument(String::from_str("dimensionality is out of range")),
            );
        }
        let users = match build_fields(&user) {
            Ok(f) => f,
            Err(e) => {
                return Err(e);
            }
        };
        let lanes = element_lanes as u32;
        let lanes_p = match Positive::new(lanes) {
            Some(p) => p,
            None => {
                return Err(
                    Error::InvalidArgument(String::from_str("element lanes cannot be zero")),
                );
            }
        };
        let dim = dimensionality as u32;
        let r = match PhysicalStream::try_from_parts(elems, lanes_p, dim, complexity, users) {
            Ok(r) => r,
            Err(e) => {
                return Err(e);
            }
        };
        proof {
            assert(r@ =~= v);
        }
        Ok(r)
    }

    /// Assembles a physical stream from validated parts, rejecting one whose
    /// combined signal width does not fit the unsigned range.
    pub fn try_from_parts(
        elems: Fields,
        lanes_p: Positive,
        dim: u32,
        complexity: Complexity,
        users: Fields,
    ) -> (r: Result<PhysicalStream, Error>)
        ensures
            ({
                let v = PhysicalStreamV {
                    element_fields: elems@,
                    element_lanes: lanes_p@,
                    dimensionality: dim,
                    complexity: complexity@,
                    user: users@,
                };
                &&& (r is Ok <==> total_bits(v) <= u32::MAX)
                &&& (r is Ok ==> r->Ok_0@ == v)
                &&& (r is Err ==> r->Err_0 is InvalidArgument)
            }),
    {
        let ghost v = PhysicalStreamV {
            element_fields: elems@,
            element_lanes: lanes_p@,
            dimensionality: dim,
            complexity: complexity@,
            user: users@,
        };
        let lanes = lanes_p.get();
        let sum_e = match elems.width_sum() {
            Some(s) => s,
            None => {
                proof {
                    assert(sum_widths(v.element_fields) <= data_bits(v)) by (nonlinear_arith)
                        requires
                            v.element_lanes >= 1,
                            data_bits(v) == sum_widths(v.element_fields) * v.element_lanes,
                    ;
                }
                return Err(
                    Error::InvalidArgument(String::from_str("combined bit count is too large")),
                );
            }
        };
        let sum_u = match users.width_sum() {
            Some(s) => s,
            None => {
                proof {
                    assert(data_bits(v) >= 0) by (nonlinear_arith)
                        requires
                            v.element_lanes >= 1,
                            data_bits(v) == sum_widths(v.element_fields) * v.element_lanes,
                    ;
                }
                return Err(
                    Error::InvalidArgument(String::from_str("combined bit count is too large")),
                );
            }
        };
        let major = complexity.major();
        proof {
            vstd::arithmetic::mul::lemma_mul_upper_bound(
                sum_e as int,
                u32::MAX as int,
                lanes as int,
                u32::MAX as int,
            );
            vstd::arithmetic::mul::lemma_mul_nonnegative(sum_e as int, lanes as int);
        }
        let data = (sum_e as u64) * (lanes as u64);
        if data > 0xffff_ffffu64 {
            return Err(
                Error::InvalidArgument(String::from_str("combined bit count is too large")),
            );
        }
        let stai: u64 = if major >= 6 && lanes > 1 {
            log2_ceil(lanes_p) as u64
        } else {
            0
        };
        let endi: u64 = if (major >= 5 || dim >= 1) && lanes > 1 {
            log2_ceil(lanes_p) as u64
        } else {
            0
        };
        let strb: u64 = if major >= 7 || dim >= 1 {
            lanes as u64
        } else {
            0
        };
        proof {
            vstd::arithmetic::power2::lemma2_to64();
            crate::util::lemma_clog2_bound(lanes as nat, 32);
        }
        let total = data + (dim as u64) + stai + endi + strb + (sum_u as u64);
        if total > 0xffff_ffffu64 {
            return Err(
                Error::InvalidArgument(String::from_str("combined bit count is too large")),
            );
        }
        Ok(PhysicalStream::new(elems, lanes_p, dim, complexity, users))
    }
}

} // verus!

verus! {

// ---------------------------------------------------------------------------
// Parsing complexity levels
// ---------------------------------------------------------------------------

/// Whether a character is a decimal digit.
pub open spec fn is_dec_digit(c: char) -> bool {
    '0' <= c && c <= '9'
}

/// The value of a string of decimal digits.
pub open spec fn dec_val(s: Seq<char>) -> nat
    decreases s.len(),
{
    if s.len() == 0 {
        0
    } else {
        (dec_val(s.drop_last()) * 10 + (s.last() as nat - '0' as nat)) as nat
    }
}

/// A longer digit string never has a smaller value.
proof fn lemma_dec_val_prefix(s: Seq<char>, i: int)
    requires
        0 <= i <= s.len(),
        forall|q: int| 0 <= q < s.len() ==> is_dec_digit(#[trigger] s[q]),
    ensures
        dec_val(s.take(i)) <= dec_val(s),
    decreases s.len() - i,
{
    if i == s.len() {
        assert(s.take(i) =~= s);
    } else {
        lemma_dec_val_prefix(s, i + 1);
        assert(s.take(i + 1).drop_last() =~= s.take(i));
        assert(s.take(i + 1).last() == s[i]);
        assert(is_dec_digit(s[i]));
        assert(s[i] as nat >= '0' as nat);
        assert(dec_val(s.take(i)) <= dec_val(s.take(i + 1)));
    }
}

/// Whether a string is a well-formed level component: at least one digit,
/// digits only, and a value that fits.
pub open spec fn num_ok(s: Seq<char>) -> bool {
    &&& s.len() > 0
    &&& (forall|i: int| 0 <= i < s.len() ==> is_dec_digit(#[trigger] s[i]))
    &&& dec_val(s) <= u32::MAX
}

/// The index of the first period at or after `i`, or the string's length.
pub open spec fn dot_or_end(s: Seq<char>, i: int) -> int
    decreases s.len() - i,
{
    if i < 0 || i >= s.len() {
        s.len() as int
    } else if s[i] == '.' {
        i
    } else {
        dot_or_end(s, i + 1)
    }
}

proof fn lemma_dot_or_end_bounds(s: Seq<char>, i: int)
    requires
        0 <= i <= s.len(),
    ensures
        i <= dot_or_end(s, i) <= s.len(),
        forall|j: int| i <= j < dot_or_end(s, i) ==> s[j] != '.',
        dot_or_end(s, i) < s.len() ==> s[dot_or_end(s, i)] == '.',
    decreases s.len() - i,
{
    if i < s.len() && s[i] != '.' {
        lemma_dot_or_end_bounds(s, i + 1);
    }
}

/// Whether the period-separated components from index `i` on are all
/// well-formed numbers.
pub open spec fn cpx_ok_from(s: Seq<char>, i: int) -> bool
    decreases s.len() - i,
    via cpx_ok_from_decreases
{
    if i < 0 || i > s.len() {
        false
    } else {
        let d = dot_or_end(s, i);
        num_ok(s.subrange(i, d)) && (d >= s.len() || cpx_ok_from(s, d + 1))
    }
}

#[via_fn]
proof fn cpx_ok_from_decreases(s: Seq<char>, i: int) {
    if 0 <= i <= s.len() {
        lemma_dot_or_end_bounds(s, i);
    }
}

/// The values of the period-separated components from index `i` on.
pub open spec fn cpx_levels_from(s: Seq<char>, i: int) -> Seq<u32>
    decreases s.len() - i,
    via cpx_levels_from_decreases
{
    if i < 0 || i > s.len() {
        Seq::empty()
    } else {
        let d = dot_or_end(s, i);
        seq![dec_val(s.subrange(i, d)) as u32] + (if d >= s.len() {
            Seq::<u32>::empty()
        } else {
            cpx_levels_from(s, d + 1)
        })
    }
}

#[via_fn]
proof fn cpx_levels_from_decreases(s: Seq<char>, i: int) {
    if 0 <= i <= s.len() {
        lemma_dot_or_end_bounds(s, i);
    }
}

impl Complexity {
    /// Parses a complexity level written as a version number: components
    /// separated by periods, each a decimal number that fits. Returns an
    /// error on anything else.
    pub fn from_str(s: &str) -> (r: Result<Complexity, Error>)
        ensures
            r is Ok <==> cpx_ok_from(s@, 0),
            r is Ok ==> r->Ok_0@ == cpx_levels_from(s@, 0),
            r is Err ==> r->Err_0 is InvalidArgument,
    {
        let len = s.unicode_len();
        let mut levels: Vec<u32> = Vec::new();
        let mut start: usize = 0;
        loop
            invariant_except_break
                cpx_ok_from(s@, start as int) ==> cpx_levels_from(s@, 0) == levels@
                    + cpx_levels_from(s@, start as int),
            invariant
                len == s@.len(),
                start <= len,
                cpx_ok_from(s@, 0) <==> cpx_ok_from(s@, start as int),
                start > 0 ==> levels@.len() > 0,
            ensures
                cpx_ok_from(s@, 0),
                levels@ == cpx_levels_from(s@, 0),
                levels@.len() > 0,
            decreases len - start + 1,
        {
            proof {
                lemma_dot_or_end_bounds(s@, start as int);
            }
            let mut d: usize = start;
            while d < len && s.get_char(d) != '.'
                invariant
                    len == s@.len(),
                    start <= d <= len,
                    dot_or_end(s@, start as int) == dot_or_end(s@, d as int),
                decreases len - d,
            {
                d = d + 1;
            }
            proof {
                assert(dot_or_end(s@, start as int) == d);
            }
            if d == start {
                proof {
                    assert(s@.subrange(start as int, d as int) =~= Seq::<char>::empty());
                    assert(!num_ok(s@.subrange(start as int, d as int)));
                    assert(!cpx_ok_from(s@, start as int));
                }
                return Err(
                    Error::InvalidArgument(
                        String::from_str("a complexity level component cannot be empty"),
                    ),
                );
            }
            let ghost seg = s@.subrange(start as int, d as int);
            let mut val: u64 = 0;
            let mut j: usize = start;
            proof {
                assert(seg.take(0) =~= Seq::<char>::empty());
            }
            while j < d
                invariant
                    len == s@.len(),
                    start <= j <= d <= len,
                    seg == s@.subrange(start as int, d as int),
                    dot_or_end(s@, start as int) == d,
                    cpx_ok_from(s@, 0) <==> cpx_ok_from(s@, start as int),
                    forall|q: int| start <= q < j ==> is_dec_digit(#[trigger] s@[q]),
                    val == dec_val(seg.take(j - start)),
                    val <= u32::MAX,
                decreases d - j,
            {
                let c = s.get_char(j);
                if !('0' <= c && c <= '9') {
                    proof {
                        assert(seg[j - start] == s@[j as int]);
                        assert(!num_ok(seg));
                        assert(!cpx_ok_from(s@, start as int));
                    }
                    return Err(
                        Error::InvalidArgument(
                            String::from_str(
                                "a complexity level component must be a decimal number",
                            ),
                        ),
                    );
                }
                let digit = (c as u32) - ('0' as u32);
                let next = val * 10 + (digit as u64);
                proof {
                    assert(seg.take(j - start + 1).drop_last() =~= seg.take(j - start));
                    assert(seg.take(j - start + 1).last() == s@[j as int]);
                    assert(next == dec_val(seg.take(j - start + 1)));
                }
                if next > 0xffff_ffffu64 {
                    proof {
                        if forall|q: int| 0 <= q < seg.len() ==> is_dec_digit(#[trigger] seg[q]) {
                            lemma_dec_val_prefix(seg, j - start + 1);
                        }
                        assert(!num_ok(seg));
                        assert(!cpx_ok_from(s@, start as int));
                    }
                    return Err(
                        Error::InvalidArgument(
                            String::from_str("a complexity level component is too large"),
                        ),
                    );
                }
                val = next;
                j = j + 1;
            }
            proof {
                assert(seg.take(d - start) =~= seg);
                assert(num_ok(seg));
            }
            let ghost pre = levels@;
            levels.push(val as u32);
            if d == len {
                proof {
                    assert(cpx_ok_from(s@, start as int));
                    assert(cpx_levels_from(s@, start as int) =~= seq![dec_val(seg) as u32]);
                    assert(cpx_levels_from(s@, 0) == pre + cpx_levels_from(s@, start as int));
                    assert(levels@ =~= pre + seq![dec_val(seg) as u32]);
                    assert(levels@ =~= cpx_levels_from(s@, 0));
                }
                break ;
            }
            proof {
                assert(s@[d as int] == '.');
                assert(cpx_ok_from(s@, start as int) <==> cpx_ok_from(s@, d + 1));
                if cpx_ok_from(s@, d + 1) {
                    assert(cpx_levels_from(s@, start as int) == seq![dec_val(seg) as u32]
                        + cpx_levels_from(s@, d + 1));
                    assert(cpx_levels_from(s@, 0) == pre + cpx_levels_from(s@, start as int));
                    assert(pre + (seq![dec_val(seg) as u32] + cpx_levels_from(s@, d + 1)) =~= (pre
                        + seq![dec_val(seg) as u32]) + cpx_levels_from(s@, d + 1));
                    assert(levels@ =~= pre + seq![dec_val(seg) as u32]);
                    assert(levels@ + cpx_levels_from(s@, d + 1) =~= cpx_levels_from(s@, 0));
                }
            }
            start = d + 1;
        }
        match Complexity::new(levels) {
            Ok(c) => Ok(c),
            Err(_) => {
                proof {
                    assert(false);
                }
                unreached()
            }
        }
    }
}

} // verus!
