//! Logical stream types: a closed tree of type variants and the synthesis
//! that flattens it into physical streams.

use vstd::prelude::*;

use crate::physical::{unique_keys, Complexity, Fields, PhysicalStream, PhysicalStreamV, total_bits};
use crate::util::clog2;
use crate::{valid_name, BitCount, Error, Name, PathName, Positive, PositiveReal};

verus! {

/// Which way a stream's content flows relative to its parent.
#[derive(Debug, Clone, Copy, PartialEq, Eq, Structural)]
pub enum StreamDirection {
    Forward,
    Reverse,
}

/// A logical stream type: the declarative, nested description of a streaming
/// data shape.
#[derive(Debug)]
pub enum LogicalType {
    /// Conveys no information.
    Null,
    /// A fixed number of bits.
    Bits(Positive),
    /// An ordered group of named fields, all active together.
    Group(Group),
    /// A tagged union of named variants, one active at a time.
    Union(Union),
    /// A stream wrapper: its payload moves over its own physical stream.
    Stream(Box<Stream>),
}

/// An ordered group of named fields.
#[derive(Debug)]
pub struct Group {
    pub fields: Vec<(Name, LogicalType)>,
}

/// A tagged union of named variants.
#[derive(Debug)]
pub struct Union {
    pub fields: Vec<(Name, LogicalType)>,
}

/// A stream node: a payload type with the parameters that shape its
/// physical stream.
#[derive(Debug)]
pub struct Stream {
    pub data: LogicalType,
    pub throughput: PositiveReal,
    pub dimensionality: u32,
    pub complexity: Complexity,
    pub direction: StreamDirection,
    pub user: LogicalType,
}

/// The mathematical content of a logical type.
#[verifier::ext_equal]
pub ghost enum LogicalTypeV {
    Null,
    Bits(u32),
    Group(Seq<(Seq<char>, LogicalTypeV)>),
    Union(Seq<(Seq<char>, LogicalTypeV)>),
    Stream(Box<StreamV>),
}

/// The mathematical content of a stream node.
#[verifier::ext_equal]
pub ghost struct StreamV {
    pub data: LogicalTypeV,
    pub throughput: u64,
    pub dimensionality: u32,
    pub complexity: Seq<u32>,
    pub direction: StreamDirection,
    pub user: LogicalTypeV,
}

/// The view of a logical type.
pub open spec fn lt_view(t: LogicalType) -> LogicalTypeV
    decreases t,
{
    match t {
        LogicalType::Null => LogicalTypeV::Null,
        LogicalType::Bits(w) => LogicalTypeV::Bits(w@),
        LogicalType::Group(g) => LogicalTypeV::Group(lt_fields_view(g.fields@)),
        LogicalType::Union(u) => LogicalTypeV::Union(lt_fields_view(u.fields@)),
        LogicalType::Stream(s) => LogicalTypeV::Stream(Box::new(stream_view(*s))),
    }
}

/// The view of a named field list.
pub open spec fn lt_fields_view(fs: Seq<(Name, LogicalType)>) -> Seq<(Seq<char>, LogicalTypeV)>
    decreases fs,
{
    if fs.len() == 0 {
        Seq::empty()
    } else {
        seq![(fs[0].0@, lt_view(fs[0].1))] + lt_fields_view(fs.skip(1))
    }
}

/// The view of a stream node.
pub open spec fn stream_view(s: Stream) -> StreamV
    decreases s,
{
    StreamV {
        data: lt_view(s.data),
        throughput: s.throughput@,
        dimensionality: s.dimensionality,
        complexity: s.complexity@,
        direction: s.direction,
        user: lt_view(s.user),
    }
}

impl View for LogicalType {
    type V = LogicalTypeV;

    open spec fn view(&self) -> LogicalTypeV {
        lt_view(*self)
    }
}

impl View for Group {
    type V = Seq<(Seq<char>, LogicalTypeV)>;

    open spec fn view(&self) -> Seq<(Seq<char>, LogicalTypeV)> {
        lt_fields_view(self.fields@)
    }
}

impl View for Union {
    type V = Seq<(Seq<char>, LogicalTypeV)>;

    open spec fn view(&self) -> Seq<(Seq<char>, LogicalTypeV)> {
        lt_fields_view(self.fields@)
    }
}

impl View for Stream {
    type V = StreamV;

    open spec fn view(&self) -> StreamV {
        stream_view(*self)
    }
}

/// Elementwise characterization of a field list's view.
pub proof fn lemma_lt_fields_view(fs: Seq<(Name, LogicalType)>)
    ensures
        lt_fields_view(fs).len() == fs.len(),
        forall|i: int|
            0 <= i < fs.len() ==> #[trigger] lt_fields_view(fs)[i] == (
            fs[i].0@,
            lt_view(fs[i].1),
            ),
    decreases fs,
{
    if fs.len() > 0 {
        lemma_lt_fields_view(fs.skip(1));
        assert forall|i: int| 0 <= i < fs.len() implies #[trigger] lt_fields_view(fs)[i] == (
        fs[i].0@,
        lt_view(fs[i].1),
        ) by {
            if i > 0 {
                assert(lt_fields_view(fs)[i] == lt_fields_view(fs.skip(1))[i - 1]);
                assert(fs.skip(1)[i - 1] == fs[i]);
            }
        };
    }
}

// ---------------------------------------------------------------------------
// Classification predicates
// ---------------------------------------------------------------------------

/// Whether a type conveys no information at all.
pub open spec fn is_null_v(t: LogicalTypeV) -> bool
    decreases t,
{
    match t {
        LogicalTypeV::Null => true,
        LogicalTypeV::Bits(_) => false,
        LogicalTypeV::Group(fs) => fields_null(fs),
        LogicalTypeV::Union(fs) => fs.len() <= 1 && fields_null(fs),
        LogicalTypeV::Stream(s) => is_null_v(s.data) && is_null_v(s.user),
    }
}

/// Whether every field of a list is null.
pub open spec fn fields_null(fs: Seq<(Seq<char>, LogicalTypeV)>) -> bool
    decreases fs,
{
    if fs.len() == 0 {
        true
    } else {
        is_null_v(fs[0].1) && fields_null(fs.skip(1))
    }
}

/// Whether no stream node is reachable in the sub-tree.
pub open spec fn is_element_only_v(t: LogicalTypeV) -> bool
    decreases t,
{
    match t {
        LogicalTypeV::Null => true,
        LogicalTypeV::Bits(_) => true,
        LogicalTypeV::Group(fs) => fields_element_only(fs),
        LogicalTypeV::Union(fs) => fields_element_only(fs),
        LogicalTypeV::Stream(_) => false,
    }
}

/// Whether every field of a list is element-only.
pub open spec fn fields_element_only(fs: Seq<(Seq<char>, LogicalTypeV)>) -> bool
    decreases fs,
{
    if fs.len() == 0 {
        true
    } else {
        is_element_only_v(fs[0].1) && fields_element_only(fs.skip(1))
    }
}

proof fn lemma_fields_null_index(fs: Seq<(Seq<char>, LogicalTypeV)>)
    ensures
        fields_null(fs) <==> (forall|i: int| 0 <= i < fs.len() ==> is_null_v((#[trigger] fs[i]).1)),
    decreases fs,
{
    if fs.len() > 0 {
        lemma_fields_null_index(fs.skip(1));
        assert forall|i: int| 1 <= i < fs.len() implies fs.skip(1)[i - 1] == fs[i] by {}
        if forall|i: int| 0 <= i < fs.len() ==> is_null_v((#[trigger] fs[i]).1) {
            assert(is_null_v(fs[0].1));
            assert forall|i: int| 0 <= i < fs.skip(1).len() implies is_null_v(
                (#[trigger] fs.skip(1)[i]).1,
            ) by {
                assert(fs.skip(1)[i] == fs[i + 1]);
            };
        }
    }
}

proof fn lemma_fields_element_only_index(fs: Seq<(Seq<char>, LogicalTypeV)>)
    ensures
        fields_element_only(fs) <==> (forall|i: int|
            0 <= i < fs.len() ==> is_element_only_v((#[trigger] fs[i]).1)),
    decreases fs,
{
    if fs.len() > 0 {
        lemma_fields_element_only_index(fs.skip(1));
        if forall|i: int| 0 <= i < fs.len() ==> is_element_only_v((#[trigger] fs[i]).1) {
            assert forall|i: int| 0 <= i < fs.skip(1).len() implies is_element_only_v(
                (#[trigger] fs.skip(1)[i]).1,
            ) by {
                assert(fs.skip(1)[i] == fs[i + 1]);
            };
        } else {
            let i = choose|i: int| 0 <= i < fs.len() && !is_element_only_v((#[trigger] fs[i]).1);
            if i > 0 {
                assert(fs.skip(1)[i - 1] == fs[i]);
            }
        }
    }
}

impl Clone for LogicalType {
    fn clone(&self) -> (r: Self)
        ensures
            r@ == self@,
        decreases self,
    {
        match self {
            LogicalType::Null => LogicalType::Null,
            LogicalType::Bits(w) => LogicalType::Bits(*w),
            LogicalType::Group(g) => LogicalType::Group(Group { fields: clone_fields(&g.fields) }),
            LogicalType::Union(u) => LogicalType::Union(Union { fields: clone_fields(&u.fields) }),
            LogicalType::Stream(s) => LogicalType::Stream(Box::new((**s).clone())),
        }
    }
}

impl Clone for Stream {
    fn clone(&self) -> (r: Self)
        ensures
            r@ == self@,
        decreases self,
    {
        Stream {
            data: self.data.clone(),
            throughput: self.throughput,
            dimensionality: self.dimensionality,
            complexity: self.complexity.clone(),
            direction: self.direction,
            user: self.user.clone(),
        }
    }
}

/// Clones a named field list.
fn clone_fields(fs: &Vec<(Name, LogicalType)>) -> (r: Vec<(Name, LogicalType)>)
    ensures
        lt_fields_view(r@) == lt_fields_view(fs@),
    decreases fs,
{
    let mut out: Vec<(Name, LogicalType)> = Vec::new();
    let mut i: usize = 0;
    while i < fs.len()
        invariant
            i <= fs@.len(),
            out@.len() == i,
            forall|j: int|
                0 <= j < i ==> (#[trigger] out@[j]).0@ == fs@[j].0@ && out@[j].1@ == fs@[j].1@,
        decreases fs@.len() - i,
    {
        let name = fs[i].0.clone();
        let typ = fs[i].1.clone();
        out.push((name, typ));
        i = i + 1;
    }
    proof {
        lemma_lt_fields_view(out@);
        lemma_lt_fields_view(fs@);
        assert(lt_fields_view(out@) =~= lt_fields_view(fs@));
    }
    out
}

impl Clone for Group {
    fn clone(&self) -> (r: Self)
        ensures
            r@ == self@,
    {
        Group { fields: clone_fields(&self.fields) }
    }
}

impl Clone for Union {
    fn clone(&self) -> (r: Self)
        ensures
            r@ == self@,
    {
        Union { fields: clone_fields(&self.fields) }
    }
}

// ---------------------------------------------------------------------------
// Exec classification
// ---------------------------------------------------------------------------

impl LogicalType {
    /// A bit-field type of the given width. Returns an error when the width
    /// is zero.
    pub fn try_new_bits(width: u32) -> (r: Result<LogicalType, Error>)
        ensures
            r is Ok <==> width >= 1,
            r is Ok ==> r->Ok_0@ == LogicalTypeV::Bits(width),
            r is Err ==> r->Err_0 is InvalidArgument,
    {
        match Positive::new(width) {
            Some(w) => Ok(LogicalType::Bits(w)),
            None => Err(Error::InvalidArgument(String::from_str("bit count cannot be zero"))),
        }
    }

    /// Returns true if this type conveys no information.
    pub fn is_null(&self) -> (r: bool)
        ensures
            r == is_null_v(self@),
        decreases self,
    {
        match self {
            LogicalType::Null => true,
            LogicalType::Bits(_) => false,
            LogicalType::Group(g) => fields_all_null(&g.fields),
            LogicalType::Union(u) => {
                proof {
                    lemma_lt_fields_view(u.fields@);
                }
                u.fields.len() <= 1 && fields_all_null(&u.fields)
            }
            LogicalType::Stream(s) => s.data.is_null() && s.user.is_null(),
        }
    }

    /// Returns true if no stream node is reachable in this type's sub-tree.
    pub fn is_element_only(&self) -> (r: bool)
        ensures
            r == is_element_only_v(self@),
        decreases self,
    {
        match self {
            LogicalType::Null => true,
            LogicalType::Bits(_) => true,
            LogicalType::Group(g) => fields_all_element_only(&g.fields),
            LogicalType::Union(u) => fields_all_element_only(&u.fields),
            LogicalType::Stream(_) => false,
        }
    }
}

fn fields_all_null(fs: &Vec<(Name, LogicalType)>) -> (r: bool)
    ensures
        r == fields_null(lt_fields_view(fs@)),
    decreases fs,
{
    proof {
        lemma_lt_fields_view(fs@);
        lemma_fields_null_index(lt_fields_view(fs@));
    }
    let mut i: usize = 0;
    while i < fs.len()
        invariant
            i <= fs@.len(),
            lt_fields_view(fs@).len() == fs@.len(),
            forall|j: int|
                0 <= j < fs@.len() ==> #[trigger] lt_fields_view(fs@)[j] == (
                fs@[j].0@,
                lt_view(fs@[j].1),
                ),
            forall|j: int| 0 <= j < i ==> is_null_v(lt_view((#[trigger] fs@[j]).1)),
        decreases fs@.len() - i,
    {
        if !fs[i].1.is_null() {
            proof {
                lemma_fields_null_index(lt_fields_view(fs@));
                assert(!is_null_v(lt_fields_view(fs@)[i as int].1));
            }
            return false;
        }
        i = i + 1;
    }
    proof {
        lemma_fields_null_index(lt_fields_view(fs@));
        assert forall|j: int| 0 <= j < lt_fields_view(fs@).len() implies is_null_v(
            (#[trigger] lt_fields_view(fs@)[j]).1,
        ) by {
            assert(lt_fields_view(fs@)[j].1 == lt_view(fs@[j].1));
        };
    }
    true
}

fn fields_all_element_only(fs: &Vec<(Name, LogicalType)>) -> (r: bool)
    ensures
        r == fields_element_only(lt_fields_view(fs@)),
    decreases fs,
{
    proof {
        lemma_lt_fields_view(fs@);
        lemma_fields_element_only_index(lt_fields_view(fs@));
    }
    let mut i: usize = 0;
    while i < fs.len()
        invariant
            i <= fs@.len(),
            lt_fields_view(fs@).len() == fs@.len(),
            forall|j: int|
                0 <= j < fs@.len() ==> #[trigger] lt_fields_view(fs@)[j] == (
                fs@[j].0@,
                lt_view(fs@[j].1),
                ),
            forall|j: int| 0 <= j < i ==> is_element_only_v(lt_view((#[trigger] fs@[j]).1)),
        decreases fs@.len() - i,
    {
        if !fs[i].1.is_element_only() {
            proof {
                lemma_fields_element_only_index(lt_fields_view(fs@));
                assert(!is_element_only_v(lt_fields_view(fs@)[i as int].1));
            }
            return false;
        }
        i = i + 1;
    }
    proof {
        lemma_fields_element_only_index(lt_fields_view(fs@));
        assert forall|j: int| 0 <= j < lt_fields_view(fs@).len() implies is_element_only_v(
            (#[trigger] lt_fields_view(fs@)[j]).1,
        ) by {
            assert(lt_fields_view(fs@)[j].1 == lt_view(fs@[j].1));
        };
    }
    true
}

/// Whether field names are pairwise distinct.
pub open spec fn unique_field_names(fs: Seq<(Seq<char>, LogicalTypeV)>) -> bool {
    forall|i: int, j: int| 0 <= i < j < fs.len() ==> (#[trigger] fs[i]).0 != (#[trigger] fs[j]).0
}

/// Checks that field names are pairwise distinct.
fn check_unique_names(fs: &Vec<(Name, LogicalType)>) -> (r: bool)
    ensures
        r == unique_field_names(lt_fields_view(fs@)),
{
    proof {
        lemma_lt_fields_view(fs@);
    }
    let ghost vs = lt_fields_view(fs@);
    let mut i: usize = 0;
    while i < fs.len()
        invariant
            i <= fs@.len(),
            vs == lt_fields_view(fs@),
            vs.len() == fs@.len(),
            forall|j: int| 0 <= j < fs@.len() ==> (#[trigger] vs[j]).0 == fs@[j].0@,
            forall|p: int, q: int| 0 <= p < q < i ==> (#[trigger] vs[p]).0 != (#[trigger] vs[q]).0,
        decreases fs@.len() - i,
    {
        let mut j: usize = 0;
        while j < i
            invariant
                j <= i,
                i < fs@.len(),
                vs == lt_fields_view(fs@),
                vs.len() == fs@.len(),
                forall|q: int| 0 <= q < fs@.len() ==> (#[trigger] vs[q]).0 == fs@[q].0@,
                forall|p: int| 0 <= p < j ==> (#[trigger] vs[p]).0 != vs[i as int].0,
            decreases i - j,
        {
            if fs[j].0.same(&fs[i].0) {
                proof {
                    assert((vs[j as int]).0 == (vs[i as int]).0);
                }
                return false;
            }
            j = j + 1;
        }
        i = i + 1;
    }
    true
}

impl Group {
    /// Builds a group from named fields. Returns an error when two fields
    /// share a name.
    pub fn try_new(fields: Vec<(Name, LogicalType)>) -> (r: Result<Group, Error>)
        ensures
            r is Ok <==> unique_field_names(lt_fields_view(fields@)),
            r is Ok ==> r->Ok_0@ == lt_fields_view(fields@),
            r is Err ==> r->Err_0 is UnexpectedDuplicate,
    {
        if check_unique_names(&fields) {
            Ok(Group { fields })
        } else {
            Err(Error::UnexpectedDuplicate)
        }
    }

    /// The named fields, in declaration order.
    pub fn fields(&self) -> (r: &Vec<(Name, LogicalType)>)
        ensures
            lt_fields_view(r@) == self@,
    {
        &self.fields
    }
}

impl Union {
    /// Builds a union from named variants. Returns an error when two
    /// variants share a name.
    pub fn try_new(fields: Vec<(Name, LogicalType)>) -> (r: Result<Union, Error>)
        ensures
            r is Ok <==> unique_field_names(lt_fields_view(fields@)),
            r is Ok ==> r->Ok_0@ == lt_fields_view(fields@),
            r is Err ==> r->Err_0 is UnexpectedDuplicate,
    {
        if check_unique_names(&fields) {
            Ok(Union { fields })
        } else {
            Err(Error::UnexpectedDuplicate)
        }
    }

    /// The named variants, in declaration order.
    pub fn fields(&self) -> (r: &Vec<(Name, LogicalType)>)
        ensures
            lt_fields_view(r@) == self@,
    {
        &self.fields
    }

    /// The width of the implicit tag field: enough bits to address every
    /// variant, absent when there are fewer than two.
    ///
    /// Law: a union with more than one variant carries a tag of
    /// ceil(log2(variant count)) bits; one with fewer carries none.
    pub fn tag(&self) -> (r: Option<Positive>)
        ensures
            r is Some <==> self@.len() > 1,
            r is Some ==> r->0@ == tag_bits(self@.len()),
    {
        proof {
            lemma_lt_fields_view(self.fields@);
        }
        if self.fields.len() > 1 {
            let n = self.fields.len();
            let w = tag_width_of_count(n);
            Some(w)
        } else {
            None
        }
    }
}

/// The number of tag bits for a variant count: ceil(log2(count)).
pub open spec fn tag_bits(count: nat) -> nat {
    clog2(count)
}

/// Computes the tag width for a variant count above one.
fn tag_width_of_count(n: usize) -> (r: Positive)
    requires
        n > 1,
    ensures
        r@ == tag_bits(n as nat),
{
    proof {
        vstd::arithmetic::power2::lemma2_to64();
        crate::util::lemma_clog2_bound(n as nat, 64);
    }
    let mut x: usize = n;
    let mut r: u32 = 0;
    while x > 1
        invariant
            x >= 1,
            r + clog2(x as nat) == clog2(n as nat),
            clog2(n as nat) <= 64,
        decreases x,
    {
        x = x / 2 + x % 2;
        r = r + 1;
    }
    proof {
        assert(clog2(n as nat) >= 1) by {
            assert(n > 1);
        };
    }
    match Positive::new(r) {
        Some(p) => p,
        None => unreached(),
    }
}

impl Stream {
    /// Builds a stream node. Returns an error when the user type is not
    /// element-only: user content moves with each transfer and cannot
    /// itself contain a stream.
    pub fn try_new(
        data: LogicalType,
        throughput: PositiveReal,
        dimensionality: u32,
        complexity: Complexity,
        direction: StreamDirection,
        user: LogicalType,
    ) -> (r: Result<Stream, Error>)
        ensures
            r is Ok <==> is_element_only_v(user@),
            r is Ok ==> r->Ok_0@ == (StreamV {
                data: data@,
                throughput: throughput@,
                dimensionality,
                complexity: complexity@,
                direction,
                user: user@,
            }),
            r is Err ==> r->Err_0 is InvalidArgument,
    {
        if user.is_element_only() {
            Ok(Stream { data, throughput, dimensionality, complexity, direction, user })
        } else {
            Err(Error::InvalidArgument(String::from_str("user type cannot contain streams")))
        }
    }

    /// The payload type.
    pub fn data(&self) -> (r: &LogicalType)
        ensures
            r@ == self@.data,
    {
        &self.data
    }

    /// The throughput ratio.
    pub fn throughput(&self) -> (r: PositiveReal)
        ensures
            r@ == self@.throughput,
    {
        self.throughput
    }

    /// The dimensionality.
    pub fn dimensionality(&self) -> (r: u32)
        ensures
            r == self@.dimensionality,
    {
        self.dimensionality
    }

    /// The complexity.
    pub fn complexity(&self) -> (r: &Complexity)
        ensures
            r@ == self@.complexity,
    {
        &self.complexity
    }

    /// The direction.
    pub fn direction(&self) -> (r: StreamDirection)
        ensures
            r == self@.direction,
    {
        self.direction
    }

    /// The user transfer type.
    pub fn user(&self) -> (r: &LogicalType)
        ensures
            r@ == self@.user,
    {
        &self.user
    }

    /// Wraps this stream as a logical type.
    pub fn into_logical(self) -> (r: LogicalType)
        ensures
            r@ == LogicalTypeV::Stream(Box::new(self@)),
    {
        LogicalType::Stream(Box::new(self))
    }
}

} // verus!

verus! {

// ---------------------------------------------------------------------------
// Flattening: paths and widths of the element content
// ---------------------------------------------------------------------------

/// Entries of a field list's flattening, with paths relative to the list's
/// owner: each field's entries below the field's name, in declaration order.
pub open spec fn flat_fields_list(fs: Seq<(Seq<char>, LogicalTypeV)>) -> Seq<
    (Seq<Seq<char>>, u32),
>
    decreases fs,
{
    if fs.len() == 0 {
        Seq::empty()
    } else {
        prefix_entries(fs[0].0, flat_fields(fs[0].1)) + flat_fields_list(fs.skip(1))
    }
}

/// The first `i` fields' part of a list's flattening.
pub open spec fn flat_list_upto(fs: Seq<(Seq<char>, LogicalTypeV)>, i: int) -> Seq<
    (Seq<Seq<char>>, u32),
>
    decreases i,
{
    if i <= 0 {
        Seq::empty()
    } else {
        flat_list_upto(fs, i - 1) + prefix_entries(fs[i - 1].0, flat_fields(fs[i - 1].1))
    }
}

/// Entries placed one path segment deeper.
pub open spec fn prefix_entries(name: Seq<char>, es: Seq<(Seq<Seq<char>>, u32)>) -> Seq<
    (Seq<Seq<char>>, u32),
> {
    es.map_values(|e: (Seq<Seq<char>>, u32)| (seq![name] + e.0, e.1))
}

/// The implicit tag entry of a union: present with more than one variant.
pub open spec fn union_tag_entries(n: nat) -> Seq<(Seq<Seq<char>>, u32)> {
    if n > 1 {
        seq![(seq!["tag"@], tag_bits(n) as u32)]
    } else {
        Seq::empty()
    }
}

/// The flattening of a type: dotted paths and bit widths of its element
/// content, in declaration order. Streams contribute nothing; a union
/// contributes its tag and then its variants.
pub open spec fn flat_fields(t: LogicalTypeV) -> Seq<(Seq<Seq<char>>, u32)>
    decreases t,
{
    match t {
        LogicalTypeV::Null => Seq::empty(),
        LogicalTypeV::Bits(w) => seq![(Seq::<Seq<char>>::empty(), w)],
        LogicalTypeV::Group(fs) => flat_fields_list(fs),
        LogicalTypeV::Union(fs) => union_tag_entries(fs.len()) + flat_fields_list(fs),
        LogicalTypeV::Stream(_) => Seq::empty(),
    }
}

/// Splitting a flattening at a field boundary.
proof fn lemma_flat_list_step(fs: Seq<(Seq<char>, LogicalTypeV)>, i: int)
    requires
        0 <= i <= fs.len(),
    ensures
        flat_list_upto(fs, i) + flat_list_from(fs, i) == flat_list_from(fs, 0),
    decreases i,
{
    if i == 0 {
        assert(flat_list_upto(fs, 0) + flat_list_from(fs, 0) =~= flat_list_from(fs, 0));
    } else {
        lemma_flat_list_step(fs, i - 1);
        assert(flat_list_upto(fs, i) == flat_list_upto(fs, i - 1) + prefix_entries(
            fs[i - 1].0,
            flat_fields(fs[i - 1].1),
        ));
        assert(flat_list_from(fs, i - 1) == prefix_entries(fs[i - 1].0, flat_fields(fs[i - 1].1))
            + flat_list_from(fs, i));
        assert((flat_list_upto(fs, i - 1) + prefix_entries(fs[i - 1].0, flat_fields(fs[i - 1].1)))
            + flat_list_from(fs, i) =~= flat_list_upto(fs, i - 1) + (prefix_entries(
            fs[i - 1].0,
            flat_fields(fs[i - 1].1),
        ) + flat_list_from(fs, i)));
    }
}

/// The flattening of the fields from index `i` on.
pub open spec fn flat_list_from(fs: Seq<(Seq<char>, LogicalTypeV)>, i: int) -> Seq<
    (Seq<Seq<char>>, u32),
>
    decreases fs.len() - i,
{
    if i < 0 || i >= fs.len() {
        Seq::empty()
    } else {
        prefix_entries(fs[i].0, flat_fields(fs[i].1)) + flat_list_from(fs, i + 1)
    }
}

proof fn lemma_flat_list_as_from(fs: Seq<(Seq<char>, LogicalTypeV)>)
    ensures
        flat_fields_list(fs) == flat_list_from(fs, 0),
    decreases fs,
{
    if fs.len() > 0 {
        lemma_flat_list_as_from(fs.skip(1));
        lemma_flat_from_shift(fs, 1);
        assert(flat_fields_list(fs) == prefix_entries(fs[0].0, flat_fields(fs[0].1))
            + flat_fields_list(fs.skip(1)));
    } else {
        assert(flat_fields_list(fs) =~= flat_list_from(fs, 0));
    }
}

proof fn lemma_flat_from_shift(fs: Seq<(Seq<char>, LogicalTypeV)>, i: int)
    requires
        1 <= i <= fs.len(),
    ensures
        flat_list_from(fs, i) == flat_list_from(fs.skip(1), i - 1),
    decreases fs.len() - i,
{
    if i < fs.len() {
        lemma_flat_from_shift(fs, i + 1);
        assert(fs.skip(1)[i - 1] == fs[i]);
    } else {
        assert(flat_list_from(fs, i) =~= flat_list_from(fs.skip(1), i - 1));
    }
}

/// The whole flattening is the prefix over all fields.
pub proof fn lemma_flat_list_full(fs: Seq<(Seq<char>, LogicalTypeV)>)
    ensures
        flat_list_upto(fs, fs.len() as int) == flat_fields_list(fs),
{
    lemma_flat_list_step(fs, fs.len() as int);
    lemma_flat_list_as_from(fs);
    assert(flat_list_from(fs, fs.len() as int) =~= Seq::empty());
    assert(flat_list_upto(fs, fs.len() as int) + Seq::<(Seq<Seq<char>>, u32)>::empty()
        =~= flat_list_upto(fs, fs.len() as int));
}

/// Entries with the full prefix applied.
pub open spec fn at_prefix(p: Seq<Seq<char>>, es: Seq<(Seq<Seq<char>>, u32)>) -> Seq<
    (Seq<Seq<char>>, u32),
> {
    es.map_values(|e: (Seq<Seq<char>>, u32)| (p + e.0, e.1))
}

proof fn lemma_at_prefix_concat(p: Seq<Seq<char>>, a: Seq<(Seq<Seq<char>>, u32)>, b: Seq<
    (Seq<Seq<char>>, u32)>)
    ensures
        at_prefix(p, a + b) == at_prefix(p, a) + at_prefix(p, b),
{
    assert(at_prefix(p, a + b) =~= at_prefix(p, a) + at_prefix(p, b));
}

proof fn lemma_at_prefix_deeper(p: Seq<Seq<char>>, name: Seq<char>, es: Seq<(Seq<Seq<char>>, u32)>)
    ensures
        at_prefix(p, prefix_entries(name, es)) == at_prefix(p.push(name), es),
{
    assert forall|i: int| 0 <= i < es.len() implies at_prefix(p, prefix_entries(name, es))[i]
        == at_prefix(p.push(name), es)[i] by {
        assert(p + (seq![name] + es[i].0) =~= p.push(name) + es[i].0);
    };
    assert(at_prefix(p, prefix_entries(name, es)) =~= at_prefix(p.push(name), es));
}

/// Collects the flattening of a type below a path prefix.
fn collect_flat(t: &LogicalType, prefix: &PathName, out: &mut Vec<(PathName, Positive)>)
    ensures
        final(out)@.len() == old(out)@.len() + flat_fields(t@).len(),
        forall|j: int|
            0 <= j < old(out)@.len() ==> (#[trigger] final(out)@[j]).0@ == old(out)@[j].0@
                && final(out)@[j].1@ == old(out)@[j].1@,
        forall|j: int|
            0 <= j < flat_fields(t@).len() ==> (#[trigger] final(out)@[old(out)@.len() + j]).0@
                == at_prefix(prefix@, flat_fields(t@))[j].0 && final(out)@[old(out)@.len() + j].1@
                == at_prefix(prefix@, flat_fields(t@))[j].1,
    decreases t,
{
    match t {
        LogicalType::Null => {}
        LogicalType::Bits(w) => {
            out.push((prefix.clone(), *w));
            proof {
                assert(prefix@ + Seq::<Seq<char>>::empty() =~= prefix@);
            }
        }
        LogicalType::Group(g) => {
            collect_flat_list(&g.fields, prefix, out);
        }
        LogicalType::Union(u) => {
            proof {
                lemma_lt_fields_view(u.fields@);
            }
            let ghost fs = lt_fields_view(u.fields@);
            let ghost p = prefix@;
            let ghost base = old(out)@.len() as int;
            if u.fields.len() > 1 {
                let n = u.fields.len();
                let w = tag_width_of_count(n);
                let tag_name = match Name::try_new("tag") {
                    Ok(nm) => nm,
                    Err(_) => {
                        proof {
                            reveal_strlit("tag");
                            assert(valid_name("tag"@));
                            assert(false);
                        }
                        return ;
                    }
                };
                let mut tag_path = prefix.clone();
                tag_path.push(tag_name);
                out.push((tag_path, w));
                proof {
                    reveal_strlit("tag");
                    assert(tag_path@ =~= p + seq!["tag"@]);
                }
            }
            let ghost mid = out@;
            collect_flat_list(&u.fields, prefix, out);
            proof {
                let whole = union_tag_entries(fs.len()) + flat_fields_list(fs);
                let tag_es = at_prefix(p, union_tag_entries(fs.len()));
                lemma_at_prefix_concat(p, union_tag_entries(fs.len()), flat_fields_list(fs));
                assert(flat_fields(t@) == whole);
                assert forall|j: int| 0 <= j < whole.len() implies (#[trigger] out@[base + j]).0@
                    == at_prefix(p, whole)[j].0 && out@[base + j].1@ == at_prefix(p, whole)[j].1 by {
                    if j < tag_es.len() {
                        assert(out@[base] .0@ == mid[base].0@ && out@[base].1@ == mid[base].1@);
                        assert(at_prefix(p, whole)[j] == tag_es[j]);
                    } else {
                        let j2 = j - tag_es.len();
                        assert(out@[mid.len() + j2].0@ == at_prefix(p, flat_fields_list(fs))[j2].0
                            && out@[mid.len() + j2].1@ == at_prefix(p, flat_fields_list(fs))[j2].1);
                        assert(at_prefix(p, whole)[j] == at_prefix(p, flat_fields_list(fs))[j2]);
                    }
                };
            }
        }
        LogicalType::Stream(_) => {}
    }
}

/// Collects the flattening of each field below the prefix extended by the
/// field's name, in declaration order.
fn collect_flat_list(fs: &Vec<(Name, LogicalType)>, prefix: &PathName, out: &mut Vec<
    (PathName, Positive)>)
    ensures
        final(out)@.len() == old(out)@.len() + flat_fields_list(lt_fields_view(fs@)).len(),
        forall|j: int|
            0 <= j < old(out)@.len() ==> (#[trigger] final(out)@[j]).0@ == old(out)@[j].0@
                && final(out)@[j].1@ == old(out)@[j].1@,
        forall|j: int|
            0 <= j < flat_fields_list(lt_fields_view(fs@)).len() ==> (#[trigger] final(out)@[old(
                out,
            )@.len() + j]).0@ == at_prefix(
                prefix@,
                flat_fields_list(lt_fields_view(fs@)),
            )[j].0 && final(out)@[old(out)@.len() + j].1@ == at_prefix(
                prefix@,
                flat_fields_list(lt_fields_view(fs@)),
            )[j].1,
    decreases fs,
{
    let ghost vs = lt_fields_view(fs@);
    proof {
        lemma_lt_fields_view(fs@);
    }
    let mut i: usize = 0;
    while i < fs.len()
        invariant
            i <= fs@.len(),
            vs == lt_fields_view(fs@),
            vs.len() == fs@.len(),
            forall|j: int|
                0 <= j < fs@.len() ==> #[trigger] vs[j] == (fs@[j].0@, lt_view(fs@[j].1)),
            out@.len() == old(out)@.len() + flat_list_upto(vs, i as int).len(),
            forall|j: int|
                0 <= j < old(out)@.len() ==> (#[trigger] out@[j]).0@ == old(out)@[j].0@
                    && out@[j].1@ == old(out)@[j].1@,
            forall|j: int|
                0 <= j < flat_list_upto(vs, i as int).len() ==> (#[trigger] out@[old(out)@.len()
                    + j]).0@ == at_prefix(prefix@, flat_list_upto(vs, i as int))[j].0
                    && out@[old(out)@.len() + j].1@ == at_prefix(
                    prefix@,
                    flat_list_upto(vs, i as int),
                )[j].1,
        decreases fs@.len() - i,
    {
        let mut child = prefix.clone();
        child.push(fs[i].0.clone());
        let ghost pre = out@;
        collect_flat(&fs[i].1, &child, out);
        proof {
            let p = prefix@;
            let flat_i = flat_fields(vs[i as int].1);
            let upto_i = flat_list_upto(vs, i as int);
            let upto_i1 = flat_list_upto(vs, (i + 1) as int);
            let base = old(out)@.len() as int;
            lemma_at_prefix_concat(p, upto_i, prefix_entries(vs[i as int].0, flat_i));
            lemma_at_prefix_deeper(p, vs[i as int].0, flat_i);
            assert(child@ =~= p.push(vs[i as int].0));
            assert(upto_i1 == upto_i + prefix_entries(vs[i as int].0, flat_i));
            assert(out@.len() == base + upto_i1.len());
            assert forall|j: int| 0 <= j < upto_i1.len() implies (#[trigger] out@[base + j]).0@
                == at_prefix(p, upto_i1)[j].0 && out@[base + j].1@ == at_prefix(p, upto_i1)[j].1 by {
                if j < upto_i.len() {
                    assert(out@[base + j].0@ == pre[base + j].0@ && out@[base + j].1@ == pre[base
                        + j].1@);
                    assert(at_prefix(p, upto_i1)[j] == at_prefix(p, upto_i)[j]);
                } else {
                    let j2 = j - upto_i.len();
                    assert(out@[pre.len() + j2].0@ == at_prefix(child@, flat_i)[j2].0
                        && out@[pre.len() + j2].1@ == at_prefix(child@, flat_i)[j2].1);
                    assert(at_prefix(child@, flat_i) == at_prefix(p.push(vs[i as int].0), flat_i));
                    assert(at_prefix(p, upto_i1)[j] == at_prefix(
                        p,
                        prefix_entries(vs[i as int].0, flat_i),
                    )[j2]);
                }
            };
        }
        i = i + 1;
    }
    proof {
        lemma_flat_list_full(vs);
    }
}

impl LogicalType {
    /// The flattened element content of this type: a map from dotted paths
    /// to widths, in declaration order. Returns an error when two leaves
    /// flatten to the same path.
    pub fn fields(&self) -> (r: Result<Fields, Error>)
        ensures
            r is Ok <==> unique_keys(flat_fields(self@)),
            r is Ok ==> r->Ok_0@ == flat_fields(self@),
            r is Err ==> r->Err_0 is UnexpectedDuplicate,
    {
        let mut out: Vec<(PathName, Positive)> = Vec::new();
        let root = PathName::new_empty();
        collect_flat(self, &root, &mut out);
        proof {
            assert forall|i: int| 0 <= i < out@.len() implies ((#[trigger] out@[i]).0@, out@[i].1@)
                == at_prefix(root@, flat_fields(self@))[i] by {
                assert(out@[0 + i].0@ == at_prefix(root@, flat_fields(self@))[i].0);
                assert(out@[0 + i].1@ == at_prefix(root@, flat_fields(self@))[i].1);
            };
            assert(out@.map_values(|e: (PathName, BitCount)| (e.0@, e.1@)) =~= at_prefix(
                root@,
                flat_fields(self@),
            ));
            assert(at_prefix(root@, flat_fields(self@)) =~= flat_fields(self@)) by {
                assert forall|i: int| 0 <= i < flat_fields(self@).len() implies at_prefix(
                    root@,
                    flat_fields(self@),
                )[i] == flat_fields(self@)[i] by {
                    assert(root@ + flat_fields(self@)[i].0 =~= flat_fields(self@)[i].0);
                };
            };
        }
        Fields::new(out)
    }
}

} // verus!

verus! {

// ---------------------------------------------------------------------------
// Stream splitting and synthesis
// ---------------------------------------------------------------------------

/// The stream-free part of a type: every stream node is replaced by null,
/// everything else is kept in place.
pub open spec fn split_signals(t: LogicalTypeV) -> LogicalTypeV
    decreases t,
{
    match t {
        LogicalTypeV::Null => t,
        LogicalTypeV::Bits(_) => t,
        LogicalTypeV::Group(fs) => LogicalTypeV::Group(split_signals_list(fs)),
        LogicalTypeV::Union(fs) => LogicalTypeV::Union(split_signals_list(fs)),
        LogicalTypeV::Stream(_) => LogicalTypeV::Null,
    }
}

/// The stream-free part of each field.
pub open spec fn split_signals_list(fs: Seq<(Seq<char>, LogicalTypeV)>) -> Seq<
    (Seq<char>, LogicalTypeV),
>
    decreases fs,
{
    if fs.len() == 0 {
        Seq::empty()
    } else {
        seq![(fs[0].0, split_signals(fs[0].1))] + split_signals_list(fs.skip(1))
    }
}

/// Elementwise characterization of the stream-free field list.
pub proof fn lemma_split_signals_list(fs: Seq<(Seq<char>, LogicalTypeV)>)
    ensures
        split_signals_list(fs).len() == fs.len(),
        forall|i: int|
            0 <= i < fs.len() ==> #[trigger] split_signals_list(fs)[i] == (
            fs[i].0,
            split_signals(fs[i].1),
            ),
    decreases fs,
{
    if fs.len() > 0 {
        lemma_split_signals_list(fs.skip(1));
        assert forall|i: int| 0 <= i < fs.len() implies #[trigger] split_signals_list(fs)[i] == (
        fs[i].0,
        split_signals(fs[i].1),
        ) by {
            if i > 0 {
                assert(split_signals_list(fs)[i] == split_signals_list(fs.skip(1))[i - 1]);
                assert(fs.skip(1)[i - 1] == fs[i]);
            }
        };
    }
}

/// The streams found in a type, with their paths relative to the node. A
/// stream node yields itself, with its payload reduced to the stream-free
/// part, and then whatever streams are nested inside its payload; those are
/// separate physical streams, not flattened into the parent.
pub open spec fn split_streams_of(t: LogicalTypeV) -> Seq<(Seq<Seq<char>>, StreamV)>
    decreases t,
{
    match t {
        LogicalTypeV::Null => Seq::empty(),
        LogicalTypeV::Bits(_) => Seq::empty(),
        LogicalTypeV::Group(fs) => split_streams_list(fs),
        LogicalTypeV::Union(fs) => split_streams_list(fs),
        LogicalTypeV::Stream(s) => stream_own_entry(*s) + split_streams_of(s.data),
    }
}

/// A stream's own entry at the empty path, absent when both its stream-free
/// payload and its user type are null.
pub open spec fn stream_own_entry(s: StreamV) -> Seq<(Seq<Seq<char>>, StreamV)> {
    if is_null_v(split_signals(s.data)) && is_null_v(s.user) {
        Seq::empty()
    } else {
        seq![
            (
                Seq::<Seq<char>>::empty(),
                StreamV {
                    data: split_signals(s.data),
                    throughput: s.throughput,
                    dimensionality: s.dimensionality,
                    complexity: s.complexity,
                    direction: s.direction,
                    user: s.user,
                },
            ),
        ]
    }
}

/// The streams of each field, below the field's name.
pub open spec fn split_streams_list(fs: Seq<(Seq<char>, LogicalTypeV)>) -> Seq<
    (Seq<Seq<char>>, StreamV),
>
    decreases fs,
{
    if fs.len() == 0 {
        Seq::empty()
    } else {
        prefix_streams(fs[0].0, split_streams_of(fs[0].1)) + split_streams_list(fs.skip(1))
    }
}

/// The first `i` fields' streams.
pub open spec fn streams_upto(fs: Seq<(Seq<char>, LogicalTypeV)>, i: int) -> Seq<
    (Seq<Seq<char>>, StreamV),
>
    decreases i,
{
    if i <= 0 {
        Seq::empty()
    } else {
        streams_upto(fs, i - 1) + prefix_streams(fs[i - 1].0, split_streams_of(fs[i - 1].1))
    }
}

/// The streams of the fields from index `i` on.
pub open spec fn streams_from(fs: Seq<(Seq<char>, LogicalTypeV)>, i: int) -> Seq<
    (Seq<Seq<char>>, StreamV),
>
    decreases fs.len() - i,
{
    if i < 0 || i >= fs.len() {
        Seq::empty()
    } else {
        prefix_streams(fs[i].0, split_streams_of(fs[i].1)) + streams_from(fs, i + 1)
    }
}

/// Stream entries one path segment deeper.
pub open spec fn prefix_streams(name: Seq<char>, ss: Seq<(Seq<Seq<char>>, StreamV)>) -> Seq<
    (Seq<Seq<char>>, StreamV),
> {
    ss.map_values(|e: (Seq<Seq<char>>, StreamV)| (seq![name] + e.0, e.1))
}

/// Stream entries with a full prefix applied.
pub open spec fn streams_at_prefix(p: Seq<Seq<char>>, ss: Seq<(Seq<Seq<char>>, StreamV)>) -> Seq<
    (Seq<Seq<char>>, StreamV),
> {
    ss.map_values(|e: (Seq<Seq<char>>, StreamV)| (p + e.0, e.1))
}

proof fn lemma_streams_at_prefix_concat(
    p: Seq<Seq<char>>,
    a: Seq<(Seq<Seq<char>>, StreamV)>,
    b: Seq<(Seq<Seq<char>>, StreamV)>,
)
    ensures
        streams_at_prefix(p, a + b) == streams_at_prefix(p, a) + streams_at_prefix(p, b),
{
    assert(streams_at_prefix(p, a + b) =~= streams_at_prefix(p, a) + streams_at_prefix(p, b));
}

proof fn lemma_streams_at_prefix_deeper(
    p: Seq<Seq<char>>,
    name: Seq<char>,
    ss: Seq<(Seq<Seq<char>>, StreamV)>,
)
    ensures
        streams_at_prefix(p, prefix_streams(name, ss)) == streams_at_prefix(p.push(name), ss),
{
    assert forall|i: int| 0 <= i < ss.len() implies streams_at_prefix(p, prefix_streams(name, ss))[i]
        == streams_at_prefix(p.push(name), ss)[i] by {
        assert(p + (seq![name] + ss[i].0) =~= p.push(name) + ss[i].0);
    };
    assert(streams_at_prefix(p, prefix_streams(name, ss)) =~= streams_at_prefix(p.push(name), ss));
}

proof fn lemma_streams_step(fs: Seq<(Seq<char>, LogicalTypeV)>, i: int)
    requires
        0 <= i <= fs.len(),
    ensures
        streams_upto(fs, i) + streams_from(fs, i) == streams_from(fs, 0),
    decreases i,
{
    if i == 0 {
        assert(streams_upto(fs, 0) + streams_from(fs, 0) =~= streams_from(fs, 0));
    } else {
        lemma_streams_step(fs, i - 1);
        assert((streams_upto(fs, i - 1) + prefix_streams(fs[i - 1].0, split_streams_of(fs[i - 1].1)))
            + streams_from(fs, i) =~= streams_upto(fs, i - 1) + (prefix_streams(
            fs[i - 1].0,
            split_streams_of(fs[i - 1].1),
        ) + streams_from(fs, i)));
    }
}

proof fn lemma_streams_from_shift(fs: Seq<(Seq<char>, LogicalTypeV)>, i: int)
    requires
        1 <= i <= fs.len(),
    ensures
        streams_from(fs, i) == streams_from(fs.skip(1), i - 1),
    decreases fs.len() - i,
{
    if i < fs.len() {
        lemma_streams_from_shift(fs, i + 1);
        assert(fs.skip(1)[i - 1] == fs[i]);
    } else {
        assert(streams_from(fs, i) =~= streams_from(fs.skip(1), i - 1));
    }
}

proof fn lemma_streams_list_as_from(fs: Seq<(Seq<char>, LogicalTypeV)>)
    ensures
        split_streams_list(fs) == streams_from(fs, 0),
    decreases fs,
{
    if fs.len() > 0 {
        lemma_streams_list_as_from(fs.skip(1));
        lemma_streams_from_shift(fs, 1);
    } else {
        assert(split_streams_list(fs) =~= streams_from(fs, 0));
    }
}

/// The whole stream list is the prefix over all fields.
pub proof fn lemma_streams_upto_full(fs: Seq<(Seq<char>, LogicalTypeV)>)
    ensures
        streams_upto(fs, fs.len() as int) == split_streams_list(fs),
{
    lemma_streams_step(fs, fs.len() as int);
    lemma_streams_list_as_from(fs);
    assert(streams_from(fs, fs.len() as int) =~= Seq::empty());
    assert(streams_upto(fs, fs.len() as int) + Seq::<(Seq<Seq<char>>, StreamV)>::empty()
        =~= streams_upto(fs, fs.len() as int));
}

/// Computes the stream-free part of a type.
fn signals_part(t: &LogicalType) -> (r: LogicalType)
    ensures
        r@ == split_signals(t@),
    decreases t,
{
    match t {
        LogicalType::Null => LogicalType::Null,
        LogicalType::Bits(w) => LogicalType::Bits(*w),
        LogicalType::Group(g) => LogicalType::Group(
            Group { fields: signals_part_list(&g.fields) },
        ),
        LogicalType::Union(u) => LogicalType::Union(
            Union { fields: signals_part_list(&u.fields) },
        ),
        LogicalType::Stream(_) => LogicalType::Null,
    }
}

fn signals_part_list(fs: &Vec<(Name, LogicalType)>) -> (r: Vec<(Name, LogicalType)>)
    ensures
        lt_fields_view(r@) == split_signals_list(lt_fields_view(fs@)),
    decreases fs,
{
    let ghost vs = lt_fields_view(fs@);
    proof {
        lemma_lt_fields_view(fs@);
        lemma_split_signals_list(vs);
    }
    let mut out: Vec<(Name, LogicalType)> = Vec::new();
    let mut i: usize = 0;
    while i < fs.len()
        invariant
            i <= fs@.len(),
            vs == lt_fields_view(fs@),
            vs.len() == fs@.len(),
            forall|j: int|
                0 <= j < fs@.len() ==> #[trigger] vs[j] == (fs@[j].0@, lt_view(fs@[j].1)),
            out@.len() == i,
            forall|j: int|
                0 <= j < i ==> (#[trigger] out@[j]).0@ == vs[j].0 && out@[j].1@ == split_signals(
                    vs[j].1,
                ),
        decreases fs@.len() - i,
    {
        let name = fs[i].0.clone();
        let part = signals_part(&fs[i].1);
        out.push((name, part));
        i = i + 1;
    }
    proof {
        lemma_lt_fields_view(out@);
        lemma_split_signals_list(vs);
        assert(lt_fields_view(out@) =~= split_signals_list(vs));
    }
    out
}

/// Collects the streams of a type below a path prefix, in declaration order.
fn collect_streams(t: &LogicalType, prefix: &PathName, out: &mut Vec<(PathName, Stream)>)
    ensures
        final(out)@.len() == old(out)@.len() + split_streams_of(t@).len(),
        forall|j: int|
            0 <= j < old(out)@.len() ==> (#[trigger] final(out)@[j]).0@ == old(out)@[j].0@
                && final(out)@[j].1@ == old(out)@[j].1@,
        forall|j: int|
            0 <= j < split_streams_of(t@).len() ==> (#[trigger] final(out)@[old(out)@.len()
                + j]).0@ == streams_at_prefix(prefix@, split_streams_of(t@))[j].0
                && final(out)@[old(out)@.len() + j].1@ == streams_at_prefix(
                prefix@,
                split_streams_of(t@),
            )[j].1,
    decreases t,
{
    match t {
        LogicalType::Null => {}
        LogicalType::Bits(_) => {}
        LogicalType::Group(g) => {
            collect_streams_list(&g.fields, prefix, out);
        }
        LogicalType::Union(u) => {
            collect_streams_list(&u.fields, prefix, out);
        }
        LogicalType::Stream(s) => {
            let ghost pre = out@;
            let dsig = signals_part(&s.data);
            if !(dsig.is_null() && s.user.is_null()) {
                let entry = Stream {
                    data: dsig,
                    throughput: s.throughput,
                    dimensionality: s.dimensionality,
                    complexity: s.complexity.clone(),
                    direction: s.direction,
                    user: s.user.clone(),
                };
                out.push((prefix.clone(), entry));
                proof {
                    assert(prefix@ + Seq::<Seq<char>>::empty() =~= prefix@);
                }
            }
            let ghost mid = out@;
            collect_streams(&s.data, prefix, out);
            proof {
                let own = stream_own_entry(stream_view(**s));
                let nested = split_streams_of(lt_view((**s).data));
                let whole = own + nested;
                lemma_streams_at_prefix_concat(prefix@, own, nested);
                assert(split_streams_of(t@) == whole);
                assert forall|j: int| 0 <= j < whole.len() implies (#[trigger] out@[pre.len()
                    + j]).0@ == streams_at_prefix(prefix@, whole)[j].0 && out@[pre.len() + j].1@
                    == streams_at_prefix(prefix@, whole)[j].1 by {
                    if j < own.len() {
                        assert(out@[pre.len() as int].0@ == mid[pre.len() as int].0@
                            && out@[pre.len() as int].1@ == mid[pre.len() as int].1@);
                        assert(streams_at_prefix(prefix@, whole)[j] == streams_at_prefix(
                            prefix@,
                            own,
                        )[j]);
                    } else {
                        let j2 = j - own.len();
                        assert(out@[mid.len() + j2].0@ == streams_at_prefix(prefix@, nested)[j2].0
                            && out@[mid.len() + j2].1@ == streams_at_prefix(prefix@, nested)[j2].1);
                        assert(streams_at_prefix(prefix@, whole)[j] == streams_at_prefix(
                            prefix@,
                            nested,
                        )[j2]);
                    }
                };
            }
        }
    }
}

fn collect_streams_list(fs: &Vec<(Name, LogicalType)>, prefix: &PathName, out: &mut Vec<
    (PathName, Stream)>)
    ensures
        final(out)@.len() == old(out)@.len() + split_streams_list(lt_fields_view(fs@)).len(),
        forall|j: int|
            0 <= j < old(out)@.len() ==> (#[trigger] final(out)@[j]).0@ == old(out)@[j].0@
                && final(out)@[j].1@ == old(out)@[j].1@,
        forall|j: int|
            0 <= j < split_streams_list(lt_fields_view(fs@)).len() ==> (#[trigger] final(out)@[old(
                out,
            )@.len() + j]).0@ == streams_at_prefix(
                prefix@,
                split_streams_list(lt_fields_view(fs@)),
            )[j].0 && final(out)@[old(out)@.len() + j].1@ == streams_at_prefix(
                prefix@,
                split_streams_list(lt_fields_view(fs@)),
            )[j].1,
    decreases fs,
{
    let ghost vs = lt_fields_view(fs@);
    proof {
        lemma_lt_fields_view(fs@);
    }
    let mut i: usize = 0;
    while i < fs.len()
        invariant
            i <= fs@.len(),
            vs == lt_fields_view(fs@),
            vs.len() == fs@.len(),
            forall|j: int|
                0 <= j < fs@.len() ==> #[trigger] vs[j] == (fs@[j].0@, lt_view(fs@[j].1)),
            out@.len() == old(out)@.len() + streams_upto(vs, i as int).len(),
            forall|j: int|
                0 <= j < old(out)@.len() ==> (#[trigger] out@[j]).0@ == old(out)@[j].0@
                    && out@[j].1@ == old(out)@[j].1@,
            forall|j: int|
                0 <= j < streams_upto(vs, i as int).len() ==> (#[trigger] out@[old(out)@.len()
                    + j]).0@ == streams_at_prefix(prefix@, streams_upto(vs, i as int))[j].0
                    && out@[old(out)@.len() + j].1@ == streams_at_prefix(
                    prefix@,
                    streams_upto(vs, i as int),
                )[j].1,
        decreases fs@.len() - i,
    {
        let mut child = prefix.clone();
        child.push(fs[i].0.clone());
        let ghost pre = out@;
        collect_streams(&fs[i].1, &child, out);
        proof {
            let p = prefix@;
            let ss_i = split_streams_of(vs[i as int].1);
            let upto_i = streams_upto(vs, i as int);
            let upto_i1 = streams_upto(vs, (i + 1) as int);
            let base = old(out)@.len() as int;
            lemma_streams_at_prefix_concat(p, upto_i, prefix_streams(vs[i as int].0, ss_i));
            lemma_streams_at_prefix_deeper(p, vs[i as int].0, ss_i);
            assert(child@ =~= p.push(vs[i as int].0));
            assert(upto_i1 == upto_i + prefix_streams(vs[i as int].0, ss_i));
            assert forall|j: int| 0 <= j < upto_i1.len() implies (#[trigger] out@[base + j]).0@
                == streams_at_prefix(p, upto_i1)[j].0 && out@[base + j].1@ == streams_at_prefix(
                p,
                upto_i1,
            )[j].1 by {
                if j < upto_i.len() {
                    assert(out@[base + j].0@ == pre[base + j].0@ && out@[base + j].1@ == pre[base
                        + j].1@);
                    assert(streams_at_prefix(p, upto_i1)[j] == streams_at_prefix(p, upto_i)[j]);
                } else {
                    let j2 = j - upto_i.len();
                    assert(out@[pre.len() + j2].0@ == streams_at_prefix(child@, ss_i)[j2].0
                        && out@[pre.len() + j2].1@ == streams_at_prefix(child@, ss_i)[j2].1);
                    assert(streams_at_prefix(child@, ss_i) == streams_at_prefix(
                        p.push(vs[i as int].0),
                        ss_i,
                    ));
                    assert(streams_at_prefix(p, upto_i1)[j] == streams_at_prefix(
                        p,
                        prefix_streams(vs[i as int].0, ss_i),
                    )[j2]);
                }
            };
        }
        i = i + 1;
    }
    proof {
        lemma_streams_upto_full(vs);
    }
}

/// The outcome of splitting a type: its stream-free part, and every stream
/// found in it keyed by its path.
#[derive(Debug)]
pub struct SplitStreams {
    pub signals: LogicalType,
    pub streams: Vec<(PathName, Stream)>,
}

impl SplitStreams {
    /// The stream-free part.
    pub fn signals(&self) -> (r: &LogicalType)
        ensures
            r@ == self.signals@,
    {
        &self.signals
    }

    /// The streams, keyed by path, in declaration order.
    pub fn streams(&self) -> (r: &Vec<(PathName, Stream)>)
        ensures
            r == &self.streams,
    {
        &self.streams
    }
}

impl LogicalType {
    /// Splits this type into its stream-free part and the streams below it,
    /// each keyed by the path of the field that carries it.
    pub fn split_streams(&self) -> (r: SplitStreams)
        ensures
            r.signals@ == split_signals(self@),
            r.streams@.len() == split_streams_of(self@).len(),
            forall|j: int|
                0 <= j < split_streams_of(self@).len() ==> (#[trigger] r.streams@[j]).0@
                    == split_streams_of(self@)[j].0 && r.streams@[j].1@ == split_streams_of(
                    self@,
                )[j].1,
    {
        let signals = signals_part(self);
        let mut streams: Vec<(PathName, Stream)> = Vec::new();
        let root = PathName::new_empty();
        collect_streams(self, &root, &mut streams);
        proof {
            assert forall|j: int| 0 <= j < split_streams_of(self@).len() implies (
            #[trigger] streams@[j]).0@ == split_streams_of(self@)[j].0 && streams@[j].1@
                == split_streams_of(self@)[j].1 by {
                assert(streams@[0 + j].0@ == streams_at_prefix(root@, split_streams_of(self@))[j].0);
                assert(streams@[0 + j].1@ == streams_at_prefix(root@, split_streams_of(self@))[j].1);
                assert(root@ + split_streams_of(self@)[j].0 =~= split_streams_of(self@)[j].0);
            };
        }
        SplitStreams { signals, streams }
    }
}

} // verus!

verus! {

// ---------------------------------------------------------------------------
// Synthesis: logical types to physical streams
// ---------------------------------------------------------------------------

/// The number of element lanes a throughput implies: its ceiling.
pub open spec fn lanes_of(milli: u64) -> int {
    (milli + 999) / 1000
}

/// The physical stream a split-off stream node synthesizes to.
pub open spec fn stream_phys_view(sv: StreamV) -> PhysicalStreamV {
    PhysicalStreamV {
        element_fields: flat_fields(sv.data),
        element_lanes: lanes_of(sv.throughput) as u32,
        dimensionality: sv.dimensionality,
        complexity: sv.complexity,
        user: flat_fields(sv.user),
    }
}

/// When a split-off stream node synthesizes successfully: unique element and
/// user paths, a representable lane count, and a combined signal width that
/// fits the unsigned range.
pub open spec fn stream_phys_ok(sv: StreamV) -> bool {
    &&& unique_keys(flat_fields(sv.data))
    &&& unique_keys(flat_fields(sv.user))
    &&& lanes_of(sv.throughput) <= u32::MAX
    &&& total_bits(stream_phys_view(sv)) <= u32::MAX
}

impl Stream {
    /// Synthesizes this stream node into a physical stream descriptor.
    /// The node's payload must already be stream-free, as produced by
    /// splitting.
    pub fn physical(&self) -> (r: Result<PhysicalStream, Error>)
        ensures
            r is Ok <==> stream_phys_ok(self@),
            r is Ok ==> r->Ok_0@ == stream_phys_view(self@),
            r is Err ==> (r->Err_0 is InvalidArgument || r->Err_0 is UnexpectedDuplicate),
    {
        let elems = match self.data.fields() {
            Ok(f) => f,
            Err(e) => {
                return Err(e);
            }
        };
        let users = match self.user.fields() {
            Ok(f) => f,
            Err(e) => {
                return Err(e);
            }
        };
        let lanes64 = self.throughput.ceil();
        if lanes64 > 0xffff_ffffu64 {
            return Err(
                Error::InvalidArgument(String::from_str("throughput exceeds the lane limit")),
            );
        }
        let lanes = match Positive::new(lanes64 as u32) {
            Some(p) => p,
            None => {
                return Err(
                    Error::InvalidArgument(String::from_str("throughput exceeds the lane limit")),
                );
            }
        };
        PhysicalStream::try_from_parts(
            elems,
            lanes,
            self.dimensionality,
            self.complexity.clone(),
            users,
        )
    }
}

/// The outcome of synthesis: the widths of the stream-free signals, and one
/// physical stream per stream node, keyed by path, in declaration order.
#[derive(Debug)]
pub struct LogicalStream {
    pub signals: Fields,
    pub streams: Vec<(PathName, PhysicalStream)>,
}

impl LogicalStream {
    /// The stream-free signals' paths and widths.
    pub fn signals(&self) -> (r: &Fields)
        ensures
            r == &self.signals,
    {
        &self.signals
    }

    /// The physical streams, keyed by path, in declaration order.
    pub fn streams(&self) -> (r: &Vec<(PathName, PhysicalStream)>)
        ensures
            r == &self.streams,
    {
        &self.streams
    }
}

/// When synthesis of a whole type succeeds: the stream-free part flattens
/// without duplicate paths, every stream synthesizes, and no two streams
/// share a path.
pub open spec fn synthesize_ok(t: LogicalTypeV) -> bool {
    &&& unique_keys(flat_fields(split_signals(t)))
    &&& (forall|i: int|
        0 <= i < split_streams_of(t).len() ==> stream_phys_ok((#[trigger] split_streams_of(t)[i]).1))
    &&& (forall|i: int, j: int|
        0 <= i < j < split_streams_of(t).len() ==> (#[trigger] split_streams_of(t)[i]).0 != (
        #[trigger] split_streams_of(t)[j]).0)
}

impl LogicalType {
    /// Synthesizes this type: splits it into its stream-free part and its
    /// stream nodes, flattens the stream-free part into signal widths, and
    /// turns each stream node into a physical stream keyed by its path.
    pub fn synthesize(&self) -> (r: Result<LogicalStream, Error>)
        ensures
            r is Ok <==> synthesize_ok(self@),
            r is Ok ==> r->Ok_0.signals@ == flat_fields(split_signals(self@)),
            r is Ok ==> r->Ok_0.streams@.len() == split_streams_of(self@).len(),
            r is Ok ==> forall|i: int|
                0 <= i < split_streams_of(self@).len() ==> (#[trigger] r->Ok_0.streams@[i]).0@
                    == split_streams_of(self@)[i].0 && r->Ok_0.streams@[i].1@ == stream_phys_view(
                    split_streams_of(self@)[i].1,
                ),
            r is Err ==> (r->Err_0 is InvalidArgument || r->Err_0 is UnexpectedDuplicate),
    {
        let split = self.split_streams();
        let signals = match split.signals.fields() {
            Ok(f) => f,
            Err(e) => {
                return Err(e);
            }
        };
        let ghost ss = split_streams_of(self@);
        let mut streams: Vec<(PathName, PhysicalStream)> = Vec::new();
        let mut i: usize = 0;
        while i < split.streams.len()
            invariant
                i <= split.streams@.len(),
                ss == split_streams_of(lt_view(*self)),
                split.streams@.len() == ss.len(),
                forall|j: int|
                    0 <= j < ss.len() ==> (#[trigger] split.streams@[j]).0@ == ss[j].0
                        && split.streams@[j].1@ == ss[j].1,
                streams@.len() == i,
                forall|j: int|
                    0 <= j < i ==> (#[trigger] streams@[j]).0@ == ss[j].0 && streams@[j].1@
                        == stream_phys_view(ss[j].1),
                forall|j: int| 0 <= j < i ==> stream_phys_ok((#[trigger] ss[j]).1),
            decreases split.streams@.len() - i,
        {
            let phys = match split.streams[i].1.physical() {
                Ok(p) => p,
                Err(e) => {
                    proof {
                        assert(split.streams@[i as int].1@ == ss[i as int].1);
                        assert(!stream_phys_ok(ss[i as int].1));
                        assert(!synthesize_ok(self@));
                    }
                    return Err(e);
                }
            };
            let path = split.streams[i].0.clone();
            streams.push((path, phys));
            i = i + 1;
        }
        let mut a: usize = 0;
        while a < streams.len()
            invariant
                ss == split_streams_of(lt_view(*self)),
                streams@.len() == ss.len(),
                a <= ss.len(),
                forall|j: int|
                    0 <= j < ss.len() ==> (#[trigger] streams@[j]).0@ == ss[j].0 && streams@[j].1@
                        == stream_phys_view(ss[j].1),
                forall|p: int, q: int| 0 <= p < q < a ==> (#[trigger] ss[p]).0 != (
                #[trigger] ss[q]).0,
            decreases ss.len() - a,
        {
            let mut b: usize = 0;
            while b < a
                invariant
                    ss == split_streams_of(lt_view(*self)),
                    streams@.len() == ss.len(),
                    a < ss.len(),
                    b <= a,
                    forall|j: int|
                        0 <= j < ss.len() ==> (#[trigger] streams@[j]).0@ == ss[j].0
                            && streams@[j].1@ == stream_phys_view(ss[j].1),
                    forall|p: int| 0 <= p < b ==> (#[trigger] ss[p]).0 != ss[a as int].0,
                decreases a - b,
            {
                if streams[b].0.same(&streams[a].0) {
                    proof {
                        assert(ss[b as int].0 == ss[a as int].0);
                        assert(!synthesize_ok(self@));
                    }
                    return Err(Error::UnexpectedDuplicate);
                }
                b = b + 1;
            }
            a = a + 1;
        }
        proof {
            assert(synthesize_ok(self@));
        }
        Ok(LogicalStream { signals, streams })
    }
}

} // verus!
