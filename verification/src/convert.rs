//! Building the common hardware representation from logical types: the
//! canonical rendering (one port per physical signal) and the fancy
//! rendering (nested records mirroring the logical tree).

use vstd::prelude::*;

use crate::common::{
    Component, ComponentV, FieldV, Mode, Package, PackageV, Port, PortV, Record, RecordV, Type,
    TypeV,
};
use crate::design;
use crate::design::{Interface, Library, Streamlet};
use crate::logical::{
    flat_fields, is_null_v, lanes_of, split_signals, split_streams_of, stream_phys_view,
    LogicalType, LogicalTypeV, Stream, StreamV,
};
use crate::physical::{
    signal_list_spec, signal_list_views, Origin, Signal, SignalV, Width,
};
use crate::util::{cat, cat_spec};
use crate::{Error, Name, NonZeroReal, PathName};

verus! {

/// Suffix of the canonical representation of streamlet components.
pub open spec fn canon_suffix() -> Seq<char> {
    "com"@
}

/// The rendering of a dotted path as one identifier: segments joined by
/// double underscores.
pub open spec fn path_id(p: Seq<Seq<char>>) -> Seq<char>
    decreases p.len(),
{
    if p.len() == 0 {
        Seq::empty()
    } else if p.len() == 1 {
        p[0]
    } else {
        p[0] + "__"@ + path_id(p.skip(1))
    }
}

/// Renders a path as one identifier.
fn path_id_exec(p: &PathName) -> (r: String)
    ensures
        r@ == path_id(p@),
{
    let s = p.path_string();
    proof {
        lemma_path_string_is_path_id(p@, 0);
        assert(p@.skip(0) =~= p@);
    }
    s
}

proof fn lemma_path_string_is_path_id(p: Seq<Seq<char>>, i: int)
    requires
        0 <= i <= p.len(),
    ensures
        PathName::path_string_spec_from(p, i) == path_id(p.skip(i)),
    decreases p.len() - i,
{
    if i >= p.len() {
        assert(p.skip(i) =~= Seq::<Seq<char>>::empty());
    } else if i == p.len() - 1 {
        assert(p.skip(i).len() == 1);
        assert(p.skip(i)[0] == p[i]);
    } else {
        lemma_path_string_is_path_id(p, i + 1);
        assert(p.skip(i)[0] == p[i]);
        assert(p.skip(i).skip(1) =~= p.skip(i + 1));
    }
}

/// The port mode a signal origin implies, given the interface's mode:
/// source-driven signals keep the interface's direction, sink-driven
/// signals invert it.
pub trait ModeFor {
    /// The common-representation port mode for this origin under the given
    /// interface mode.
    fn mode_for(&self, streamlet_mode: design::Mode) -> (r: Mode);
}

/// The port mode a signal origin implies.
pub open spec fn mode_for_spec(origin: Origin, streamlet_mode: design::Mode) -> Mode {
    match origin {
        Origin::Sink => match streamlet_mode {
            design::Mode::In => Mode::Out,
            design::Mode::Out => Mode::In,
        },
        Origin::Source => match streamlet_mode {
            design::Mode::In => Mode::In,
            design::Mode::Out => Mode::Out,
        },
    }
}

impl ModeFor for Origin {
    /// The port mode of this origin, given the interface mode.
    fn mode_for(&self, streamlet_mode: design::Mode) -> (r: Mode)
        ensures
            r == mode_for_spec(*self, streamlet_mode),
    {
        match self {
            Origin::Sink => match streamlet_mode {
                design::Mode::In => Mode::Out,
                design::Mode::Out => Mode::In,
            },
            Origin::Source => match streamlet_mode {
                design::Mode::In => Mode::In,
                design::Mode::Out => Mode::Out,
            },
        }
    }
}

/// The common mode of an interface mode.
pub open spec fn mode_of_spec(m: design::Mode) -> Mode {
    match m {
        design::Mode::In => Mode::In,
        design::Mode::Out => Mode::Out,
    }
}

/// Converts an interface mode to a common port mode.
pub fn mode_of(m: design::Mode) -> (r: Mode)
    ensures
        r == mode_of_spec(m),
{
    match m {
        design::Mode::In => Mode::In,
        design::Mode::Out => Mode::Out,
    }
}

/// The common type of a signal width: a lone bit or a vector.
pub open spec fn type_of_width(w: Width) -> TypeV {
    match w {
        Width::Scalar => TypeV::Bit,
        Width::Vector(n) => TypeV::BitVec(n),
    }
}

/// Converts a signal width to a common type.
pub fn width_type(w: Width) -> (r: Type)
    ensures
        r@ == type_of_width(w),
{
    match w {
        Width::Scalar => Type::Bit,
        Width::Vector(n) => Type::BitVec { width: n },
    }
}

} // verus!

verus! {

// ---------------------------------------------------------------------------
// Canonical rendering: one signal per physical signal
// ---------------------------------------------------------------------------

/// When a type can be rendered: every stream node reachable outside stream
/// payloads synthesizes to a well-formed physical stream, and its payload
/// can be rendered in turn.
pub open spec fn render_ok(t: LogicalTypeV) -> bool
    decreases t,
{
    match t {
        LogicalTypeV::Null => true,
        LogicalTypeV::Bits(_) => true,
        LogicalTypeV::Group(fs) => render_ok_list(fs),
        LogicalTypeV::Union(fs) => render_ok_list(fs),
        LogicalTypeV::Stream(s) => crate::logical::stream_phys_ok(*s) && render_ok(s.data),
    }
}

/// Whether every field can be rendered.
pub open spec fn render_ok_list(fs: Seq<(Seq<char>, LogicalTypeV)>) -> bool
    decreases fs,
{
    if fs.len() == 0 {
        true
    } else {
        render_ok(fs[0].1) && render_ok_list(fs.skip(1))
    }
}

/// A stream-free type renders unconditionally.
pub proof fn lemma_element_only_render_ok(t: LogicalTypeV)
    requires
        crate::logical::is_element_only_v(t),
    ensures
        render_ok(t),
    decreases t,
{
    match t {
        LogicalTypeV::Group(fs) => {
            lemma_element_only_render_ok_list(fs);
        }
        LogicalTypeV::Union(fs) => {
            lemma_element_only_render_ok_list(fs);
        }
        _ => {}
    }
}

proof fn lemma_element_only_render_ok_list(fs: Seq<(Seq<char>, LogicalTypeV)>)
    requires
        crate::logical::fields_element_only(fs),
    ensures
        render_ok_list(fs),
    decreases fs,
{
    if fs.len() > 0 {
        lemma_element_only_render_ok(fs[0].1);
        lemma_element_only_render_ok_list(fs.skip(1));
    }
}

/// The stream-free part of any type is stream-free.
pub proof fn lemma_split_signals_element_only(t: LogicalTypeV)
    ensures
        crate::logical::is_element_only_v(split_signals(t)),
    decreases t,
{
    match t {
        LogicalTypeV::Group(fs) => {
            lemma_split_signals_list_element_only(fs);
        }
        LogicalTypeV::Union(fs) => {
            lemma_split_signals_list_element_only(fs);
        }
        _ => {}
    }
}

proof fn lemma_split_signals_list_element_only(fs: Seq<(Seq<char>, LogicalTypeV)>)
    ensures
        crate::logical::fields_element_only(crate::logical::split_signals_list(fs)),
    decreases fs,
{
    if fs.len() > 0 {
        lemma_split_signals_element_only(fs[0].1);
        lemma_split_signals_list_element_only(fs.skip(1));
        assert(crate::logical::split_signals_list(fs).skip(1)
            =~= crate::logical::split_signals_list(fs.skip(1)));
    }
}

/// The signals of a rendered stream node: the signals of its physical
/// stream, each named below the prefix.
pub open spec fn stream_canonical_sigs(sv: StreamV, prefix: Seq<char>) -> Seq<SignalV> {
    if is_null_v(LogicalTypeV::Stream(Box::new(sv))) {
        Seq::empty()
    } else {
        signal_list_views(signal_list_spec(stream_phys_view(sv))).map_values(
            |s: SignalV| SignalV {
                name: cat_spec(prefix, s.name),
                origin: s.origin,
                width: s.width,
            },
        )
    }
}

/// The canonical signals of a type below a name prefix: one per flattened
/// leaf, a tag ahead of union variants, and a full signal bundle per stream.
pub open spec fn canonical_sigs(t: LogicalTypeV, prefix: Seq<char>) -> Seq<SignalV>
    decreases t,
{
    match t {
        LogicalTypeV::Null => Seq::empty(),
        LogicalTypeV::Bits(w) => seq![
            SignalV { name: prefix, origin: Origin::Source, width: Width::Vector(w) },
        ],
        LogicalTypeV::Group(fs) => canonical_sigs_list(fs, prefix),
        LogicalTypeV::Union(fs) => union_tag_sig(fs.len(), prefix) + canonical_sigs_list(
            fs,
            prefix,
        ),
        LogicalTypeV::Stream(s) => stream_canonical_sigs(*s, prefix),
    }
}

/// The tag signal of a union with more than one variant.
pub open spec fn union_tag_sig(n: nat, prefix: Seq<char>) -> Seq<SignalV> {
    if n > 1 {
        seq![
            SignalV {
                name: cat_spec(prefix, "tag"@),
                origin: Origin::Source,
                width: Width::Vector(crate::logical::tag_bits(n) as u32),
            },
        ]
    } else {
        Seq::empty()
    }
}

/// The canonical signals of every field, each below the prefix extended by
/// its name.
pub open spec fn canonical_sigs_list(fs: Seq<(Seq<char>, LogicalTypeV)>, prefix: Seq<char>) -> Seq<
    SignalV,
>
    decreases fs,
{
    if fs.len() == 0 {
        Seq::empty()
    } else {
        canonical_sigs(fs[0].1, cat_spec(prefix, fs[0].0)) + canonical_sigs_list(fs.skip(1), prefix)
    }
}

impl Stream {
    /// The canonical signals of this stream node.
    pub fn canonical_sigs_exec(&self, prefix: &str) -> (r: Vec<Signal>)
        requires
            crate::logical::stream_phys_ok(self@),
        ensures
            r@.map_values(|s: Signal| s@) == stream_canonical_sigs(self@, prefix@),
    {
        if self.data().is_null() && self.user().is_null() {
            let r: Vec<Signal> = Vec::new();
            proof {
                assert(r@.map_values(|s: Signal| s@) =~= stream_canonical_sigs(self@, prefix@));
            }
            return r;
        }
        let phys = match self.physical() {
            Ok(p) => p,
            Err(_) => {
                proof {
                    assert(false);
                }
                unreached()
            }
        };
        let sigs = phys.signal_list().to_vec();
        let ghost sv = signal_list_views(signal_list_spec(stream_phys_view(self@)));
        let mut out: Vec<Signal> = Vec::new();
        let mut i: usize = 0;
        while i < sigs.len()
            invariant
                sigs@.map_values(|s: Signal| s@) == sv,
                sigs@.len() == sv.len(),
                i <= sv.len(),
                out@.len() == i,
                forall|j: int|
                    0 <= j < i ==> (#[trigger] out@[j])@ == (SignalV {
                        name: cat_spec(prefix@, sv[j].name),
                        origin: sv[j].origin,
                        width: sv[j].width,
                    }),
            decreases sv.len() - i,
        {
            let name = cat(prefix, sigs[i].identifier());
            let renamed = sigs[i].with_name(name);
            proof {
                assert(sigs@[i as int]@ == sv[i as int]);
            }
            out.push(renamed);
            i = i + 1;
        }
        proof {
            assert(out@.map_values(|s: Signal| s@) =~= stream_canonical_sigs(self@, prefix@));
        }
        out
    }
}

impl LogicalType {
    /// The canonical signals of this type below a name prefix. The type must
    /// be renderable: every stream node must synthesize.
    pub fn canonical(&self, prefix: &str) -> (r: Vec<Signal>)
        requires
            render_ok(self@),
        ensures
            r@.map_values(|s: Signal| s@) == canonical_sigs(self@, prefix@),
        decreases self,
    {
        match self {
            LogicalType::Null => {
                let r: Vec<Signal> = Vec::new();
                proof {
                    assert(r@.map_values(|s: Signal| s@) =~= canonical_sigs(self@, prefix@));
                }
                r
            }
            LogicalType::Bits(w) => {
                let mut out: Vec<Signal> = Vec::new();
                out.push(Signal::vec(prefix, Origin::Source, *w));
                proof {
                    assert(out@.map_values(|s: Signal| s@) =~= canonical_sigs(self@, prefix@));
                }
                out
            }
            LogicalType::Group(g) => {
                let out = canonical_of_fields(&g.fields, prefix);
                proof {
                    assert(canonical_sigs(self@, prefix@) =~= canonical_sigs_list(
                        crate::logical::lt_fields_view(g.fields@),
                        prefix@,
                    ));
                }
                out
            }
            LogicalType::Union(u) => {
                let ghost fsv = crate::logical::lt_fields_view(u.fields@);
                let mut out: Vec<Signal> = Vec::new();
                if let Some(tag) = u.tag() {
                    let tag_name = cat(prefix, "tag");
                    out.push(Signal::vec(tag_name.as_str(), Origin::Source, tag));
                }
                let mut rest = canonical_of_fields(&u.fields, prefix);
                out.append(&mut rest);
                proof {
                    assert(out@.map_values(|s: Signal| s@) =~= union_tag_sig(fsv.len(), prefix@)
                        + canonical_sigs_list(fsv, prefix@));
                }
                out
            }
            LogicalType::Stream(s) => {
                let out = s.canonical_sigs_exec(prefix);
                out
            }
        }
    }

    /// The fancy nested type of this type, named by the prefix.
    pub fn fancy(&self, prefix: &str) -> (r: Option<Type>)
        requires
            render_ok(self@),
        ensures
            r is Some <==> fancy_type(self@, prefix@) is Some,
            r is Some ==> r->0@ == fancy_type(self@, prefix@)->0,
        decreases self,
    {
        match self {
            LogicalType::Null => None,
            LogicalType::Bits(w) => Some(Type::bitvec(w.get())),
            LogicalType::Group(g) => {
                let ghost fsv = crate::logical::lt_fields_view(g.fields@);
                let mut rec = Record::new_empty(prefix);
                fancy_into_record(&g.fields, prefix, &mut rec);
                proof {
                    assert(rec@ =~= RecordV { name: prefix@, fields: fancy_fields(fsv, prefix@) });
                }
                Some(Type::Record(rec))
            }
            LogicalType::Union(u) => {
                let ghost fsv = crate::logical::lt_fields_view(u.fields@);
                let mut rec = Record::new_empty(prefix);
                if let Some(tag) = u.tag() {
                    let mut doc = String::from_str(" Variants: ");
                    doc.append(variant_names(&u.fields).as_str());
                    rec.insert_new_field("tag", Type::bitvec(tag.get()), false, Some(doc));
                }
                fancy_into_record(&u.fields, prefix, &mut rec);
                proof {
                    assert(rec@.fields =~= union_tag_field(fsv) + fancy_fields(fsv, prefix@));
                }
                Some(Type::Union(rec))
            }
            LogicalType::Stream(s) => s.fancy_type_exec(prefix),
        }
    }
}

/// The canonical signals of every field below the prefix extended by its
/// name, in declaration order.
fn canonical_of_fields(fs: &Vec<(Name, LogicalType)>, prefix: &str) -> (r: Vec<Signal>)
    requires
        render_ok_list(crate::logical::lt_fields_view(fs@)),
    ensures
        r@.map_values(|s: Signal| s@) == canonical_sigs_list(
            crate::logical::lt_fields_view(fs@),
            prefix@,
        ),
    decreases fs,
{
    let ghost fsv = crate::logical::lt_fields_view(fs@);
    proof {
        crate::logical::lemma_lt_fields_view(fs@);
        assert(fsv.skip(0) =~= fsv);
    }
    proof {
        lemma_canonical_list_as_from(fsv, prefix@);
    }
    let mut out: Vec<Signal> = Vec::new();
    proof {
        assert(out@.map_values(|s: Signal| s@) + canonical_list_from(fsv, prefix@, 0)
            =~= canonical_list_from(fsv, prefix@, 0));
    }
    let mut i: usize = 0;
    while i < fs.len()
        invariant
            fsv == crate::logical::lt_fields_view(fs@),
            fs@.len() == fsv.len(),
            forall|j: int|
                0 <= j < fsv.len() ==> #[trigger] fsv[j] == (
                fs@[j].0@,
                crate::logical::lt_view(fs@[j].1),
                ),
            render_ok_list(fsv),
            i <= fsv.len(),
            canonical_sigs_list(fsv, prefix@) == out@.map_values(|s: Signal| s@)
                + canonical_list_from(fsv, prefix@, i as int),
        decreases fsv.len() - i,
    {
        proof {
            lemma_render_ok_list_index(fsv);
        }
        let child = cat(prefix, fs[i].0.as_str());
        let mut sigs = fs[i].1.canonical(child.as_str());
        let ghost pre = out@;
        let ghost sv = sigs@;
        out.append(&mut sigs);
        proof {
            assert(out@.map_values(|s: Signal| s@) =~= pre.map_values(|s: Signal| s@)
                + sv.map_values(|s: Signal| s@));
            assert(canonical_list_from(fsv, prefix@, i as int) == canonical_sigs(
                fsv[i as int].1,
                cat_spec(prefix@, fsv[i as int].0),
            ) + canonical_list_from(fsv, prefix@, i + 1));
            assert(pre.map_values(|s: Signal| s@) + sv.map_values(|s: Signal| s@)
                + canonical_list_from(fsv, prefix@, i + 1) =~= pre.map_values(|s: Signal| s@) + (
            sv.map_values(|s: Signal| s@) + canonical_list_from(fsv, prefix@, i + 1)));
        }
        i = i + 1;
    }
    proof {
        assert(canonical_list_from(fsv, prefix@, fsv.len() as int) =~= Seq::<SignalV>::empty());
        assert(out@.map_values(|s: Signal| s@) + Seq::<SignalV>::empty() =~= out@.map_values(
            |s: Signal| s@,
        ));
    }
    out
}

/// The canonical signals of the fields from index `i` on.
pub open spec fn canonical_list_from(
    fs: Seq<(Seq<char>, LogicalTypeV)>,
    prefix: Seq<char>,
    i: int,
) -> Seq<SignalV>
    decreases fs.len() - i,
{
    if i < 0 || i >= fs.len() {
        Seq::empty()
    } else {
        canonical_sigs(fs[i].1, cat_spec(prefix, fs[i].0)) + canonical_list_from(fs, prefix, i + 1)
    }
}

proof fn lemma_canonical_list_shift(fs: Seq<(Seq<char>, LogicalTypeV)>, prefix: Seq<char>, i: int)
    requires
        1 <= i <= fs.len(),
    ensures
        canonical_list_from(fs, prefix, i) == canonical_list_from(fs.skip(1), prefix, i - 1),
    decreases fs.len() - i,
{
    if i < fs.len() {
        lemma_canonical_list_shift(fs, prefix, i + 1);
        assert(fs.skip(1)[i - 1] == fs[i]);
    } else {
        assert(canonical_list_from(fs, prefix, i) =~= canonical_list_from(fs.skip(1), prefix, i
            - 1));
    }
}

/// The whole canonical field list is the list from the start.
pub proof fn lemma_canonical_list_as_from(fs: Seq<(Seq<char>, LogicalTypeV)>, prefix: Seq<char>)
    ensures
        canonical_sigs_list(fs, prefix) == canonical_list_from(fs, prefix, 0),
    decreases fs,
{
    if fs.len() > 0 {
        lemma_canonical_list_as_from(fs.skip(1), prefix);
        lemma_canonical_list_shift(fs, prefix, 1);
    } else {
        assert(canonical_sigs_list(fs, prefix) =~= canonical_list_from(fs, prefix, 0));
    }
}

/// Elementwise reading of a renderable field list.
pub proof fn lemma_render_ok_list_index(fs: Seq<(Seq<char>, LogicalTypeV)>)
    requires
        render_ok_list(fs),
    ensures
        forall|i: int| 0 <= i < fs.len() ==> render_ok((#[trigger] fs[i]).1),
    decreases fs,
{
    if fs.len() > 0 {
        lemma_render_ok_list_index(fs.skip(1));
        assert forall|i: int| 0 <= i < fs.len() implies render_ok((#[trigger] fs[i]).1) by {
            if i > 0 {
                assert(fs.skip(1)[i - 1] == fs[i]);
            }
        };
    }
}

} // verus!

verus! {

// ---------------------------------------------------------------------------
// Fancy rendering: nested records mirroring the logical tree
// ---------------------------------------------------------------------------

/// The innermost element type widened by a throughput: a value above one
/// lane turns a bit into a vector and anything else into an array. A bare
/// number cannot be widened, and the lane count must be representable.
pub open spec fn with_throughput_spec(t: TypeV, identity: Seq<char>, milli: u64) -> Option<TypeV> {
    if lanes_of(milli) > u32::MAX {
        None
    } else {
        let lanes = lanes_of(milli) as u32;
        if lanes > 1 {
            match t {
                TypeV::Bit => Some(TypeV::BitVec(lanes)),
                TypeV::Natural => None,
                TypeV::Positive => None,
                _ => Some(
                    TypeV::Array(
                        Box::new(
                            crate::common::ArrayV {
                                name: cat_spec(identity, "array"@),
                                typ: t,
                                width: lanes,
                            },
                        ),
                    ),
                ),
            }
        } else {
            Some(t)
        }
    }
}

/// Widening a type to carry several lanes per transfer.
pub trait Multilane {
    /// This type, widened to the lane count a throughput implies.
    fn with_throughput(&self, identity: &str, throughput: NonZeroReal) -> (r: Result<Type, Error>);
}

impl Multilane for Type {
    /// Widens this type to the lane count the throughput implies.
    fn with_throughput(&self, identity: &str, throughput: NonZeroReal) -> (r: Result<Type, Error>)
        ensures
            r is Ok <==> with_throughput_spec(self@, identity@, throughput@) is Some,
            r is Ok ==> r->Ok_0@ == with_throughput_spec(self@, identity@, throughput@)->0,
            r is Err ==> r->Err_0 is InvalidArgument,
    {
        let lanes64 = throughput.ceil();
        if lanes64 > 0xffff_ffffu64 {
            return Err(
                Error::InvalidArgument(String::from_str("throughput exceeds the lane limit")),
            );
        }
        let lanes = lanes64 as u32;
        if lanes > 1 {
            match self {
                Type::Bit => Ok(Type::bitvec(lanes)),
                Type::Natural => Err(
                    Error::InvalidArgument(
                        String::from_str("a bare number cannot carry lanes"),
                    ),
                ),
                Type::Positive => Err(
                    Error::InvalidArgument(
                        String::from_str("a bare number cannot carry lanes"),
                    ),
                ),
                _ => {
                    let name = cat(identity, "array");
                    Ok(Type::array(name.as_str(), self.clone(), lanes))
                }
            }
        } else {
            Ok(self.clone())
        }
    }
}

/// The fancy type of a logical type below a name prefix: bits become
/// vectors, groups and unions nested records, and a stream a record holding
/// its handshake, payload and framing fields. A null type has no fancy type.
pub open spec fn fancy_type(t: LogicalTypeV, prefix: Seq<char>) -> Option<TypeV>
    decreases t, 1int,
{
    match t {
        LogicalTypeV::Null => None,
        LogicalTypeV::Bits(w) => Some(TypeV::BitVec(w)),
        LogicalTypeV::Group(fs) => Some(
            TypeV::Record(RecordV { name: prefix, fields: fancy_fields(fs, prefix) }),
        ),
        LogicalTypeV::Union(fs) => Some(
            TypeV::Union(
                RecordV {
                    name: prefix,
                    fields: union_tag_field(fs) + fancy_fields(fs, prefix),
                },
            ),
        ),
        LogicalTypeV::Stream(s) => fancy_stream(*s, prefix),
    }
}

/// The tag field of a fancy union: its comment lists the variant names.
pub open spec fn union_tag_field(fs: Seq<(Seq<char>, LogicalTypeV)>) -> Seq<FieldV> {
    if fs.len() > 1 {
        seq![
            FieldV {
                name: "tag"@,
                typ: TypeV::BitVec(crate::logical::tag_bits(fs.len()) as u32),
                reversed: false,
                doc: Some(" Variants: "@ + variant_names_spec(fs)),
            },
        ]
    } else {
        Seq::empty()
    }
}

/// The variant names of a union, joined by commas.
pub open spec fn variant_names_spec(fs: Seq<(Seq<char>, LogicalTypeV)>) -> Seq<char>
    decreases fs.len(),
{
    if fs.len() == 0 {
        Seq::empty()
    } else if fs.len() == 1 {
        fs[0].0
    } else {
        fs[0].0 + ", "@ + variant_names_spec(fs.skip(1))
    }
}

/// The fancy fields of a field list: one per non-null field.
pub open spec fn fancy_fields(fs: Seq<(Seq<char>, LogicalTypeV)>, prefix: Seq<char>) -> Seq<FieldV>
    decreases fs, 0int,
{
    if fs.len() == 0 {
        Seq::empty()
    } else {
        let head: Seq<FieldV> = match fancy_type(fs[0].1, cat_spec(prefix, fs[0].0)) {
            Some(ft) => seq![FieldV { name: fs[0].0, typ: ft, reversed: false, doc: None }],
            None => Seq::empty(),
        };
        head + fancy_fields(fs.skip(1), prefix)
    }
}

/// The fancy record of a stream node: the handshake pair, the widened
/// payload when it exists, and whichever framing fields the stream carries.
pub open spec fn fancy_stream(sv: StreamV, prefix: Seq<char>) -> Option<TypeV>
    decreases sv.data, 2int,
{
    if is_null_v(LogicalTypeV::Stream(Box::new(sv))) {
        None
    } else {
        let sl = signal_list_spec(stream_phys_view(sv));
        let data_field: Seq<FieldV> = match fancy_type(sv.data, cat_spec(prefix, "data"@)) {
            Some(dt) => {
                match with_throughput_spec(dt, cat_spec(prefix, "data"@), sv.throughput) {
                    Some(wt) => seq![FieldV { name: "data"@, typ: wt, reversed: false, doc: None }],
                    None => Seq::empty(),
                }
            }
            None => Seq::empty(),
        };
        Some(
            TypeV::Record(
                RecordV {
                    name: prefix,
                    fields: seq![
                        FieldV { name: "valid"@, typ: TypeV::Bit, reversed: false, doc: None },
                        FieldV { name: "ready"@, typ: TypeV::Bit, reversed: true, doc: None },
                    ] + data_field + opt_framing_field("last"@, sl.last) + opt_framing_field(
                        "stai"@,
                        sl.stai,
                    ) + opt_framing_field("endi"@, sl.endi) + opt_framing_field("strb"@, sl.strb),
                },
            ),
        )
    }
}

/// A framing field of a stream record, when its signal exists.
pub open spec fn opt_framing_field(name: Seq<char>, w: Option<u32>) -> Seq<FieldV> {
    match w {
        Some(x) => seq![
            FieldV { name, typ: TypeV::BitVec(x), reversed: false, doc: None },
        ],
        None => Seq::empty(),
    }
}

} // verus!

verus! {

/// The variant names of a union, joined by commas.
fn variant_names(fs: &Vec<(Name, LogicalType)>) -> (r: String)
    ensures
        r@ == variant_names_spec(crate::logical::lt_fields_view(fs@)),
{
    let ghost fsv = crate::logical::lt_fields_view(fs@);
    proof {
        crate::logical::lemma_lt_fields_view(fs@);
    }
    let mut out = String::new();
    if fs.len() == 0 {
        proof {
            assert(out@ =~= variant_names_spec(fsv));
        }
        return out;
    }
    let mut i: usize = fs.len() - 1;
    let mut tail = fs[i].0.as_string();
    proof {
        lemma_variant_names_tail(fsv, i as int);
        assert(fsv.skip(i as int).len() == 1);
        assert(fsv.skip(i as int)[0] == fsv[i as int]);
        assert(tail@ == variant_names_spec(fsv.skip(i as int)));
    }
    while i > 0
        invariant
            fsv == crate::logical::lt_fields_view(fs@),
            fs@.len() == fsv.len(),
            forall|j: int|
                0 <= j < fsv.len() ==> #[trigger] fsv[j] == (
                fs@[j].0@,
                crate::logical::lt_view(fs@[j].1),
                ),
            i < fsv.len(),
            tail@ == variant_names_spec(fsv.skip(i as int)),
        decreases i,
    {
        i = i - 1;
        let mut piece = fs[i].0.as_string();
        piece.append(", ");
        piece.append(tail.as_str());
        tail = piece;
        proof {
            assert(fsv.skip(i as int)[0] == fsv[i as int]);
            assert(fsv.skip(i as int).skip(1) =~= fsv.skip(i + 1));
            assert(tail@ =~= variant_names_spec(fsv.skip(i as int)));
        }
    }
    proof {
        assert(fsv.skip(0) =~= fsv);
    }
    tail
}

proof fn lemma_variant_names_tail(fs: Seq<(Seq<char>, LogicalTypeV)>, i: int)
    requires
        0 <= i == fs.len() - 1,
    ensures
        variant_names_spec(fs.skip(i)) == fs[i].0,
{
    assert(fs.skip(i).len() == 1);
    assert(fs.skip(i)[0] == fs[i]);
}

/// Inserts the fancy field of each non-null field into the record.
fn fancy_into_record(fs: &Vec<(Name, LogicalType)>, prefix: &str, rec: &mut Record)
    requires
        render_ok_list(crate::logical::lt_fields_view(fs@)),
    ensures
        final(rec)@ == (RecordV {
            name: old(rec)@.name,
            fields: old(rec)@.fields + fancy_fields(crate::logical::lt_fields_view(fs@), prefix@),
        }),
    decreases fs,
{
    let ghost fsv = crate::logical::lt_fields_view(fs@);
    proof {
        crate::logical::lemma_lt_fields_view(fs@);
        lemma_fancy_fields_as_from(fsv, prefix@);
        assert(old(rec)@.fields + fancy_from(fsv, prefix@, 0) =~= old(rec)@.fields + fancy_fields(
            fsv,
            prefix@,
        ));
    }
    let mut i: usize = 0;
    while i < fs.len()
        invariant
            fsv == crate::logical::lt_fields_view(fs@),
            fs@.len() == fsv.len(),
            forall|j: int|
                0 <= j < fsv.len() ==> #[trigger] fsv[j] == (
                fs@[j].0@,
                crate::logical::lt_view(fs@[j].1),
                ),
            render_ok_list(fsv),
            i <= fsv.len(),
            rec@.name == old(rec)@.name,
            rec@.fields + fancy_from(fsv, prefix@, i as int) == old(rec)@.fields + fancy_fields(
                fsv,
                prefix@,
            ),
        decreases fsv.len() - i,
    {
        proof {
            lemma_render_ok_list_index(fsv);
        }
        let child = cat(prefix, fs[i].0.as_str());
        let ghost pre = rec@.fields;
        if let Some(ft) = fs[i].1.fancy(child.as_str()) {
            rec.insert_new_field(fs[i].0.as_str(), ft, false, None);
        }
        proof {
            let head: Seq<FieldV> = match fancy_type(fsv[i as int].1, cat_spec(
                prefix@,
                fsv[i as int].0,
            )) {
                Some(ft) => seq![
                    FieldV { name: fsv[i as int].0, typ: ft, reversed: false, doc: None },
                ],
                None => Seq::empty(),
            };
            assert(rec@.fields =~= pre + head);
            assert(fancy_from(fsv, prefix@, i as int) == head + fancy_from(fsv, prefix@, i + 1));
            assert(pre + head + fancy_from(fsv, prefix@, i + 1) =~= pre + (head + fancy_from(
                fsv,
                prefix@,
                i + 1,
            )));
        }
        i = i + 1;
    }
    proof {
        assert(fancy_from(fsv, prefix@, fsv.len() as int) =~= Seq::<FieldV>::empty());
        assert(rec@.fields + Seq::<FieldV>::empty() =~= rec@.fields);
    }
}

/// The fancy fields from index `i` on.
pub open spec fn fancy_from(fs: Seq<(Seq<char>, LogicalTypeV)>, prefix: Seq<char>, i: int) -> Seq<
    FieldV,
>
    decreases fs.len() - i,
{
    if i < 0 || i >= fs.len() {
        Seq::empty()
    } else {
        let head: Seq<FieldV> = match fancy_type(fs[i].1, cat_spec(prefix, fs[i].0)) {
            Some(ft) => seq![FieldV { name: fs[i].0, typ: ft, reversed: false, doc: None }],
            None => Seq::empty(),
        };
        head + fancy_from(fs, prefix, i + 1)
    }
}

proof fn lemma_fancy_from_shift(fs: Seq<(Seq<char>, LogicalTypeV)>, prefix: Seq<char>, i: int)
    requires
        1 <= i <= fs.len(),
    ensures
        fancy_from(fs, prefix, i) == fancy_from(fs.skip(1), prefix, i - 1),
    decreases fs.len() - i,
{
    if i < fs.len() {
        lemma_fancy_from_shift(fs, prefix, i + 1);
        assert(fs.skip(1)[i - 1] == fs[i]);
    } else {
        assert(fancy_from(fs, prefix, i) =~= fancy_from(fs.skip(1), prefix, i - 1));
    }
}

/// The whole fancy field list is the list from the start.
pub proof fn lemma_fancy_fields_as_from(fs: Seq<(Seq<char>, LogicalTypeV)>, prefix: Seq<char>)
    ensures
        fancy_fields(fs, prefix) == fancy_from(fs, prefix, 0),
    decreases fs,
{
    if fs.len() > 0 {
        lemma_fancy_fields_as_from(fs.skip(1), prefix);
        lemma_fancy_from_shift(fs, prefix, 1);
    } else {
        assert(fancy_fields(fs, prefix) =~= fancy_from(fs, prefix, 0));
    }
}

impl Stream {
    /// The fancy record of this stream node: handshake, payload and framing.
    #[verifier::rlimit(100)]
    pub fn fancy_type_exec(&self, prefix: &str) -> (r: Option<Type>)
        requires
            crate::logical::stream_phys_ok(self@),
            render_ok(self@.data),
        ensures
            r is Some <==> fancy_stream(self@, prefix@) is Some,
            r is Some ==> r->0@ == fancy_stream(self@, prefix@)->0,
        decreases self,
    {
        if self.data().is_null() && self.user().is_null() {
            return None;
        }
        let phys = match self.physical() {
            Ok(p) => p,
            Err(_) => {
                proof {
                    assert(false);
                }
                unreached()
            }
        };
        let signals = phys.signal_list();
        let mut rec = Record::new_empty_stream(prefix);
        let data_prefix = cat(prefix, "data");
        if let Some(dt) = self.data.fancy(data_prefix.as_str()) {
            match dt.with_throughput(data_prefix.as_str(), self.throughput()) {
                Ok(wt) => {
                    rec.insert_new_field("data", wt, false, None);
                }
                Err(_) => {}
            }
        }
        if let Some(w) = signals.last {
            rec.insert_new_field("last", Type::bitvec(w), false, None);
        }
        if let Some(w) = signals.stai {
            rec.insert_new_field("stai", Type::bitvec(w), false, None);
        }
        if let Some(w) = signals.endi {
            rec.insert_new_field("endi", Type::bitvec(w), false, None);
        }
        if let Some(w) = signals.strb {
            rec.insert_new_field("strb", Type::bitvec(w), false, None);
        }
        proof {
            let sl = signal_list_spec(stream_phys_view(self@));
            let data_field: Seq<FieldV> = match fancy_type(self@.data, cat_spec(prefix@, "data"@)) {
                Some(dt) => match with_throughput_spec(dt, cat_spec(prefix@, "data"@),
                    self@.throughput) {
                    Some(wt) => seq![
                        FieldV { name: "data"@, typ: wt, reversed: false, doc: None },
                    ],
                    None => Seq::empty(),
                },
                None => Seq::empty(),
            };
            assert(rec@.fields =~= seq![
                FieldV { name: "valid"@, typ: TypeV::Bit, reversed: false, doc: None },
                FieldV { name: "ready"@, typ: TypeV::Bit, reversed: true, doc: None },
            ] + data_field + opt_framing_field("last"@, sl.last) + opt_framing_field(
                "stai"@,
                sl.stai,
            ) + opt_framing_field("endi"@, sl.endi) + opt_framing_field("strb"@, sl.strb));
        }
        Some(Type::Record(rec))
    }
}

} // verus!

verus! {

// ---------------------------------------------------------------------------
// Interfaces, streamlets, libraries, projects
// ---------------------------------------------------------------------------

/// The canonical ports of one physical stream at a path: one port per
/// signal, named prefix, path and signal, directed by the signal's origin
/// under the interface mode.
pub open spec fn stream_ports(
    n: Seq<char>,
    mode: design::Mode,
    path: Seq<Seq<char>>,
    sv: StreamV,
) -> Seq<PortV> {
    signal_list_views(signal_list_spec(stream_phys_view(sv))).map_values(
        |s: SignalV| PortV {
            name: cat_spec(cat_spec(n, path_id(path)), s.name),
            mode: mode_for_spec(s.origin, mode),
            typ: type_of_width(s.width),
            doc: None,
        },
    )
}

/// The canonical signal ports of an interface: one per stream-free leaf.
pub open spec fn signal_ports_from(
    n: Seq<char>,
    mode: design::Mode,
    es: Seq<(Seq<Seq<char>>, u32)>,
    i: int,
) -> Seq<PortV>
    decreases es.len() - i,
{
    if i < 0 || i >= es.len() {
        Seq::empty()
    } else {
        seq![
            PortV {
                name: cat_spec(n, path_id(es[i].0)),
                mode: mode_of_spec(mode),
                typ: TypeV::BitVec(es[i].1),
                doc: None,
            },
        ] + signal_ports_from(n, mode, es, i + 1)
    }
}

/// The canonical stream ports of an interface, over its streams in order.
pub open spec fn stream_ports_from(
    n: Seq<char>,
    mode: design::Mode,
    ss: Seq<(Seq<Seq<char>>, StreamV)>,
    i: int,
) -> Seq<PortV>
    decreases ss.len() - i,
{
    if i < 0 || i >= ss.len() {
        Seq::empty()
    } else {
        stream_ports(n, mode, ss[i].0, ss[i].1) + stream_ports_from(n, mode, ss, i + 1)
    }
}

/// The canonical ports of an interface: its stream-free leaves, then every
/// signal of every stream.
pub open spec fn iface_canonical_ports(n: Seq<char>, mode: design::Mode, t: LogicalTypeV) -> Seq<
    PortV,
> {
    signal_ports_from(n, mode, flat_fields(split_signals(t)), 0) + stream_ports_from(
        n,
        mode,
        split_streams_of(t),
        0,
    )
}

impl Interface {
    /// The canonical ports of this interface: one per physical signal.
    pub fn canonical(&self, prefix: &str) -> (r: Vec<Port>)
        ensures
            r@.map_values(|p: Port| p@) == iface_canonical_ports(
                prefix@,
                self.mode_spec(),
                self.typ_spec(),
            ),
    {
        let synth = match self.typ().synthesize() {
            Ok(s) => s,
            Err(_) => {
                proof {
                    assert(false);
                }
                unreached()
            }
        };
        let mode = self.mode();
        let ghost t = self.typ_spec();
        let ghost es = flat_fields(split_signals(t));
        let ghost ss = split_streams_of(t);
        let mut ports: Vec<Port> = Vec::new();
        let signals = synth.signals().to_vec();
        let mut i: usize = 0;
        while i < signals.len()
            invariant
                es == flat_fields(split_signals(t)),
                signals@.len() == es.len(),
                forall|j: int|
                    0 <= j < es.len() ==> (#[trigger] signals@[j]).0@ == es[j].0
                        && signals@[j].1@ == es[j].1,
                i <= es.len(),
                mode == self.mode_spec(),
                signal_ports_from(prefix@, mode, es, 0) == ports@.map_values(|p: Port| p@)
                    + signal_ports_from(prefix@, mode, es, i as int),
            decreases es.len() - i,
        {
            let ghost pre = ports@;
            let pid = path_id_exec(&signals[i].0);
            let name = cat(prefix, pid.as_str());
            ports.push(Port::new(name.as_str(), mode_of(mode), Type::bitvec(signals[i].1.get())));
            proof {
                assert(ports@.map_values(|p: Port| p@) =~= pre.map_values(|p: Port| p@) + seq![
                    PortV {
                        name: cat_spec(prefix@, path_id(es[i as int].0)),
                        mode: mode_of_spec(mode),
                        typ: TypeV::BitVec(es[i as int].1),
                        doc: None,
                    },
                ]);
                assert(pre.map_values(|p: Port| p@) + seq![
                    PortV {
                        name: cat_spec(prefix@, path_id(es[i as int].0)),
                        mode: mode_of_spec(mode),
                        typ: TypeV::BitVec(es[i as int].1),
                        doc: None,
                    },
                ] + signal_ports_from(prefix@, mode, es, i + 1) =~= pre.map_values(|p: Port| p@)
                    + (seq![
                    PortV {
                        name: cat_spec(prefix@, path_id(es[i as int].0)),
                        mode: mode_of_spec(mode),
                        typ: TypeV::BitVec(es[i as int].1),
                        doc: None,
                    },
                ] + signal_ports_from(prefix@, mode, es, i + 1)));
            }
            i = i + 1;
        }
        proof {
            assert(signal_ports_from(prefix@, mode, es, es.len() as int) =~= Seq::<PortV>::empty());
            assert(ports@.map_values(|p: Port| p@) + Seq::<PortV>::empty() =~= ports@.map_values(
                |p: Port| p@,
            ));
        }
        let ghost sig_ports = ports@.map_values(|p: Port| p@);
        let streams = synth.streams();
        let mut k: usize = 0;
        while k < streams.len()
            invariant
                ss == split_streams_of(t),
                streams@.len() == ss.len(),
                forall|j: int|
                    0 <= j < ss.len() ==> (#[trigger] streams@[j]).0@ == ss[j].0 && streams@[j].1@
                        == stream_phys_view(ss[j].1),
                k <= ss.len(),
                mode == self.mode_spec(),
                sig_ports == signal_ports_from(prefix@, mode, es, 0),
                sig_ports + stream_ports_from(prefix@, mode, ss, 0) == ports@.map_values(
                    |p: Port| p@,
                ) + stream_ports_from(prefix@, mode, ss, k as int),
            decreases ss.len() - k,
        {
            let ghost pre = ports@;
            let pid = path_id_exec(&streams[k].0);
            let base = cat(prefix, pid.as_str());
            let sigs = streams[k].1.signal_list().to_vec();
            let ghost sl = signal_list_views(signal_list_spec(stream_phys_view(ss[k as int].1)));
            let mut m: usize = 0;
            while m < sigs.len()
                invariant
                    sigs@.map_values(|s: Signal| s@) == sl,
                    sigs@.len() == sl.len(),
                    m <= sl.len(),
                    mode == self.mode_spec(),
                    base@ == cat_spec(prefix@, path_id(ss[k as int].0)),
                    ports@.len() == pre.len() + m,
                    forall|j: int|
                        0 <= j < pre.len() ==> (#[trigger] ports@[j])@ == pre[j]@,
                    forall|j: int|
                        0 <= j < m ==> (#[trigger] ports@[pre.len() + j])@ == (PortV {
                            name: cat_spec(base@, sl[j].name),
                            mode: mode_for_spec(sl[j].origin, mode),
                            typ: type_of_width(sl[j].width),
                            doc: None,
                        }),
                decreases sl.len() - m,
            {
                proof {
                    assert(sigs@[m as int]@ == sl[m as int]);
                }
                let sname = cat(base.as_str(), sigs[m].identifier());
                let smode = sigs[m].origin().mode_for(mode);
                let styp = width_type(sigs[m].width());
                ports.push(Port::new(sname.as_str(), smode, styp));
                m = m + 1;
            }
            proof {
                assert(stream_ports_from(prefix@, mode, ss, k as int) == stream_ports(
                    prefix@,
                    mode,
                    ss[k as int].0,
                    ss[k as int].1,
                ) + stream_ports_from(prefix@, mode, ss, k + 1));
                let sp = stream_ports(prefix@, mode, ss[k as int].0, ss[k as int].1);
                assert forall|x: int| 0 <= x < ports@.len() implies (#[trigger] ports@[x])@ == (
                pre.map_values(|p: Port| p@) + sp)[x] by {
                    if x < pre.len() {
                        assert(ports@[x]@ == pre[x]@);
                    } else {
                        let j = x - pre.len();
                        assert(ports@[pre.len() + j]@ == (PortV {
                            name: cat_spec(base@, sl[j].name),
                            mode: mode_for_spec(sl[j].origin, mode),
                            typ: type_of_width(sl[j].width),
                            doc: None,
                        }));
                        assert(sp[j] == PortV {
                            name: cat_spec(cat_spec(prefix@, path_id(ss[k as int].0)), sl[j].name),
                            mode: mode_for_spec(sl[j].origin, mode),
                            typ: type_of_width(sl[j].width),
                            doc: None,
                        });
                    }
                };
                assert(ports@.map_values(|p: Port| p@) =~= pre.map_values(|p: Port| p@)
                    + stream_ports(prefix@, mode, ss[k as int].0, ss[k as int].1));
                assert(pre.map_values(|p: Port| p@) + stream_ports(
                    prefix@,
                    mode,
                    ss[k as int].0,
                    ss[k as int].1,
                ) + stream_ports_from(prefix@, mode, ss, k + 1) =~= pre.map_values(|p: Port| p@) + (
                stream_ports(prefix@, mode, ss[k as int].0, ss[k as int].1) + stream_ports_from(
                    prefix@,
                    mode,
                    ss,
                    k + 1,
                )));
            }
            k = k + 1;
        }
        proof {
            assert(stream_ports_from(prefix@, mode, ss, ss.len() as int) =~= Seq::<PortV>::empty());
            assert(ports@.map_values(|p: Port| p@) + Seq::<PortV>::empty() =~= ports@.map_values(
                |p: Port| p@,
            ));
        }
        ports
    }

    /// The fancy ports of this interface: one record port for its stream-free
    /// part when it exists, then one record port per stream.
    pub fn fancy(&self, port_name: &str, port_type_prefix: &str) -> (r: Vec<Port>)
        ensures
            r@.map_values(|p: Port| p@) == iface_fancy_ports(
                port_name@,
                port_type_prefix@,
                self.mode_spec(),
                self.typ_spec(),
            ),
    {
        let split = self.typ().split_streams();
        let ghost t = self.typ_spec();
        let ghost ss = split_streams_of(t);
        let mode = self.mode();
        let mut ports: Vec<Port> = Vec::new();
        proof {
            lemma_split_signals_element_only(t);
            lemma_element_only_render_ok(split_signals(t));
        }
        if let Some(sig_type) = split.signals().fancy(port_type_prefix) {
            ports.push(Port::new(port_name, mode_of(mode), sig_type));
        }
        let ghost head = ports@.map_values(|p: Port| p@);
        proof {
            assert(head =~= fancy_signal_port(port_name@, port_type_prefix@, mode, t));
        }
        let streams = split.streams();
        let mut k: usize = 0;
        while k < streams.len()
            invariant
                ss == split_streams_of(t),
                streams@.len() == ss.len(),
                forall|j: int|
                    0 <= j < ss.len() ==> (#[trigger] streams@[j]).0@ == ss[j].0 && streams@[j].1@
                        == ss[j].1,
                forall|j: int| 0 <= j < ss.len() ==> crate::logical::stream_phys_ok(
                    (#[trigger] ss[j]).1,
                ),
                k <= ss.len(),
                mode == self.mode_spec(),
                head + fancy_stream_ports_from(port_name@, port_type_prefix@, mode, ss, 0)
                    == ports@.map_values(|p: Port| p@) + fancy_stream_ports_from(
                    port_name@,
                    port_type_prefix@,
                    mode,
                    ss,
                    k as int,
                ),
            decreases ss.len() - k,
        {
            let ghost pre = ports@;
            let pid = path_id_exec(&streams[k].0);
            let tn = cat(port_type_prefix, pid.as_str());
            let pn = cat(port_name, pid.as_str());
            proof {
                lemma_stream_data_render_ok(ss[k as int].1);
            }
            if let Some(typ) = streams[k].1.fancy_type_exec(tn.as_str()) {
                ports.push(Port::new(pn.as_str(), mode_of(mode), typ));
            }
            proof {
                let head_k: Seq<PortV> = match fancy_stream(ss[k as int].1, cat_spec(
                    port_type_prefix@,
                    path_id(ss[k as int].0),
                )) {
                    Some(ft) => seq![
                        PortV {
                            name: cat_spec(port_name@, path_id(ss[k as int].0)),
                            mode: mode_of_spec(mode),
                            typ: ft,
                            doc: None,
                        },
                    ],
                    None => Seq::empty(),
                };
                assert(ports@.map_values(|p: Port| p@) =~= pre.map_values(|p: Port| p@) + head_k);
                assert(fancy_stream_ports_from(port_name@, port_type_prefix@, mode, ss, k as int)
                    == head_k + fancy_stream_ports_from(
                    port_name@,
                    port_type_prefix@,
                    mode,
                    ss,
                    k + 1,
                ));
                assert(pre.map_values(|p: Port| p@) + head_k + fancy_stream_ports_from(
                    port_name@,
                    port_type_prefix@,
                    mode,
                    ss,
                    k + 1,
                ) =~= pre.map_values(|p: Port| p@) + (head_k + fancy_stream_ports_from(
                    port_name@,
                    port_type_prefix@,
                    mode,
                    ss,
                    k + 1,
                )));
            }
            k = k + 1;
        }
        proof {
            assert(fancy_stream_ports_from(port_name@, port_type_prefix@, mode, ss, ss.len() as int)
                =~= Seq::<PortV>::empty());
            assert(ports@.map_values(|p: Port| p@) + Seq::<PortV>::empty() =~= ports@.map_values(
                |p: Port| p@,
            ));
        }
        ports
    }
}

/// The port of an interface's stream-free part, when that part is non-null.
pub open spec fn fancy_signal_port(
    n: Seq<char>,
    tn: Seq<char>,
    mode: design::Mode,
    t: LogicalTypeV,
) -> Seq<PortV> {
    match fancy_type(split_signals(t), tn) {
        Some(ft) => seq![PortV { name: n, mode: mode_of_spec(mode), typ: ft, doc: None }],
        None => Seq::empty(),
    }
}

/// The fancy ports of an interface's streams, from index `i` on.
pub open spec fn fancy_stream_ports_from(
    n: Seq<char>,
    tn: Seq<char>,
    mode: design::Mode,
    ss: Seq<(Seq<Seq<char>>, StreamV)>,
    i: int,
) -> Seq<PortV>
    decreases ss.len() - i,
{
    if i < 0 || i >= ss.len() {
        Seq::empty()
    } else {
        let head: Seq<PortV> = match fancy_stream(ss[i].1, cat_spec(tn, path_id(ss[i].0))) {
            Some(ft) => seq![
                PortV {
                    name: cat_spec(n, path_id(ss[i].0)),
                    mode: mode_of_spec(mode),
                    typ: ft,
                    doc: None,
                },
            ],
            None => Seq::empty(),
        };
        head + fancy_stream_ports_from(n, tn, mode, ss, i + 1)
    }
}

/// The fancy ports of an interface.
pub open spec fn iface_fancy_ports(
    n: Seq<char>,
    tn: Seq<char>,
    mode: design::Mode,
    t: LogicalTypeV,
) -> Seq<PortV> {
    fancy_signal_port(n, tn, mode, t) + fancy_stream_ports_from(
        n,
        tn,
        mode,
        split_streams_of(t),
        0,
    )
}

/// The payload of a split-off stream is stream-free, so it renders.
pub proof fn lemma_stream_data_render_ok(sv: StreamV)
    requires
        exists|t: LogicalTypeV, i: int|
            0 <= i < split_streams_of(t).len() && (#[trigger] split_streams_of(t)[i]).1 == sv,
    ensures
        render_ok(sv.data),
{
    let (t, i) = choose|t: LogicalTypeV, i: int|
        0 <= i < split_streams_of(t).len() && (#[trigger] split_streams_of(t)[i]).1 == sv;
    lemma_split_streams_data_element_only(t);
    lemma_element_only_render_ok(sv.data);
}

/// Every stream a split yields carries a stream-free payload.
pub proof fn lemma_split_streams_data_element_only(t: LogicalTypeV)
    ensures
        forall|i: int|
            0 <= i < split_streams_of(t).len() ==> crate::logical::is_element_only_v(
                (#[trigger] split_streams_of(t)[i]).1.data,
            ),
    decreases t,
{
    match t {
        LogicalTypeV::Group(fs) => {
            lemma_split_streams_list_data(fs);
        }
        LogicalTypeV::Union(fs) => {
            lemma_split_streams_list_data(fs);
        }
        LogicalTypeV::Stream(s) => {
            lemma_split_signals_element_only(s.data);
            lemma_split_streams_data_element_only(s.data);
            let own = crate::logical::stream_own_entry(*s);
            let nested = split_streams_of(s.data);
            assert forall|i: int| 0 <= i < split_streams_of(t).len() implies
                crate::logical::is_element_only_v(
                (#[trigger] split_streams_of(t)[i]).1.data,
            ) by {
                if i < own.len() {
                    assert(split_streams_of(t)[i] == own[i]);
                } else {
                    assert(split_streams_of(t)[i] == nested[i - own.len()]);
                }
            };
        }
        _ => {}
    }
}

proof fn lemma_split_streams_list_data(fs: Seq<(Seq<char>, LogicalTypeV)>)
    ensures
        forall|i: int|
            0 <= i < crate::logical::split_streams_list(fs).len()
                ==> crate::logical::is_element_only_v(
                (#[trigger] crate::logical::split_streams_list(fs)[i]).1.data,
            ),
    decreases fs,
{
    if fs.len() > 0 {
        lemma_split_streams_data_element_only(fs[0].1);
        lemma_split_streams_list_data(fs.skip(1));
        let head = crate::logical::prefix_streams(fs[0].0, split_streams_of(fs[0].1));
        let rest = crate::logical::split_streams_list(fs.skip(1));
        assert forall|i: int| 0 <= i < crate::logical::split_streams_list(fs).len() implies
            crate::logical::is_element_only_v(
            (#[trigger] crate::logical::split_streams_list(fs)[i]).1.data,
        ) by {
            if i < head.len() {
                assert(crate::logical::split_streams_list(fs)[i] == head[i]);
                assert(head[i].1 == split_streams_of(fs[0].1)[i].1);
            } else {
                assert(crate::logical::split_streams_list(fs)[i] == rest[i - head.len()]);
            }
        };
    }
}

} // verus!

verus! {

/// The two fixed leading ports of every component: clock and reset.
pub open spec fn clk_rst_ports() -> Seq<PortV> {
    seq![
        PortV { name: "clk"@, mode: Mode::In, typ: TypeV::Bit, doc: None },
        PortV { name: "rst"@, mode: Mode::In, typ: TypeV::Bit, doc: None },
    ]
}

/// The canonical ports of the interfaces with the given mode, from `i` on.
pub open spec fn canon_iface_ports_from(ifaces: Seq<Interface>, m: design::Mode, i: int) -> Seq<
    PortV,
>
    decreases ifaces.len() - i,
{
    if i < 0 || i >= ifaces.len() {
        Seq::empty()
    } else {
        let head: Seq<PortV> = if ifaces[i].mode_spec() == m {
            iface_canonical_ports(ifaces[i].name_spec(), m, ifaces[i].typ_spec())
        } else {
            Seq::empty()
        };
        head + canon_iface_ports_from(ifaces, m, i + 1)
    }
}

/// The fancy ports of the interfaces with the given mode, from `i` on; type
/// names are prefixed with the streamlet's name for global uniqueness.
pub open spec fn fancy_iface_ports_from(
    sname: Seq<char>,
    ifaces: Seq<Interface>,
    m: design::Mode,
    i: int,
) -> Seq<PortV>
    decreases ifaces.len() - i,
{
    if i < 0 || i >= ifaces.len() {
        Seq::empty()
    } else {
        let head: Seq<PortV> = if ifaces[i].mode_spec() == m {
            iface_fancy_ports(
                ifaces[i].name_spec(),
                cat_spec(sname, ifaces[i].name_spec()),
                m,
                ifaces[i].typ_spec(),
            )
        } else {
            Seq::empty()
        };
        head + fancy_iface_ports_from(sname, ifaces, m, i + 1)
    }
}

/// The canonical component of a streamlet.
pub open spec fn streamlet_canonical_spec(s: &Streamlet, suffix: Seq<char>) -> ComponentV {
    ComponentV {
        name: cat_spec(s.name_spec(), suffix),
        parameters: Seq::empty(),
        ports: clk_rst_ports() + canon_iface_ports_from(s.interfaces_spec(), design::Mode::In, 0)
            + canon_iface_ports_from(s.interfaces_spec(), design::Mode::Out, 0),
        doc: s.doc_spec(),
    }
}

/// The fancy component of a streamlet.
pub open spec fn streamlet_fancy_spec(s: &Streamlet, suffix: Seq<char>) -> ComponentV {
    ComponentV {
        name: cat_spec(s.name_spec(), suffix),
        parameters: Seq::empty(),
        ports: clk_rst_ports() + fancy_iface_ports_from(
            s.name_spec(),
            s.interfaces_spec(),
            design::Mode::In,
            0,
        ) + fancy_iface_ports_from(s.name_spec(), s.interfaces_spec(), design::Mode::Out, 0),
        doc: s.doc_spec(),
    }
}

/// Collects the canonical ports of the interfaces with one mode.
fn canon_ports_of(ifaces: &Vec<Interface>, m: design::Mode, out: &mut Vec<Port>)
    ensures
        final(out)@.map_values(|p: Port| p@) == old(out)@.map_values(|p: Port| p@)
            + canon_iface_ports_from(ifaces@, m, 0),
{
    let ghost iv = ifaces@;
    let mut i: usize = 0;
    proof {
        assert(out@.map_values(|p: Port| p@) + canon_iface_ports_from(iv, m, 0)
            =~= old(out)@.map_values(|p: Port| p@) + canon_iface_ports_from(iv, m, 0));
    }
    while i < ifaces.len()
        invariant
            iv == ifaces@,
            i <= iv.len(),
            out@.map_values(|p: Port| p@) + canon_iface_ports_from(iv, m, i as int) == old(
                out,
            )@.map_values(|p: Port| p@) + canon_iface_ports_from(iv, m, 0),
        decreases iv.len() - i,
    {
        let ghost pre = out@;
        let iface = &ifaces[i];
        let same_mode = match (iface.mode(), m) {
            (design::Mode::In, design::Mode::In) => true,
            (design::Mode::Out, design::Mode::Out) => true,
            _ => false,
        };
        if same_mode {
            let mut ps = iface.canonical(iface.identifier());
            out.append(&mut ps);
        }
        proof {
            let head: Seq<PortV> = if iv[i as int].mode_spec() == m {
                iface_canonical_ports(iv[i as int].name_spec(), m, iv[i as int].typ_spec())
            } else {
                Seq::empty()
            };
            assert(out@.map_values(|p: Port| p@) =~= pre.map_values(|p: Port| p@) + head);
            assert(pre.map_values(|p: Port| p@) + head + canon_iface_ports_from(iv, m, i + 1)
                =~= pre.map_values(|p: Port| p@) + (head + canon_iface_ports_from(iv, m, i + 1)));
        }
        i = i + 1;
    }
    proof {
        assert(canon_iface_ports_from(iv, m, iv.len() as int) =~= Seq::<PortV>::empty());
        assert(out@.map_values(|p: Port| p@) + Seq::<PortV>::empty() =~= out@.map_values(
            |p: Port| p@,
        ));
    }
}

/// Collects the fancy ports of the interfaces with one mode.
fn fancy_ports_of(sname: &str, ifaces: &Vec<Interface>, m: design::Mode, out: &mut Vec<Port>)
    ensures
        final(out)@.map_values(|p: Port| p@) == old(out)@.map_values(|p: Port| p@)
            + fancy_iface_ports_from(sname@, ifaces@, m, 0),
{
    let ghost iv = ifaces@;
    let mut i: usize = 0;
    proof {
        assert(out@.map_values(|p: Port| p@) + fancy_iface_ports_from(sname@, iv, m, 0)
            =~= old(out)@.map_values(|p: Port| p@) + fancy_iface_ports_from(sname@, iv, m, 0));
    }
    while i < ifaces.len()
        invariant
            iv == ifaces@,
            i <= iv.len(),
            out@.map_values(|p: Port| p@) + fancy_iface_ports_from(sname@, iv, m, i as int) == old(
                out,
            )@.map_values(|p: Port| p@) + fancy_iface_ports_from(sname@, iv, m, 0),
        decreases iv.len() - i,
    {
        let ghost pre = out@;
        let iface = &ifaces[i];
        let same_mode = match (iface.mode(), m) {
            (design::Mode::In, design::Mode::In) => true,
            (design::Mode::Out, design::Mode::Out) => true,
            _ => false,
        };
        if same_mode {
            let tn = cat(sname, iface.identifier());
            let mut ps = iface.fancy(iface.identifier(), tn.as_str());
            out.append(&mut ps);
        }
        proof {
            let head: Seq<PortV> = if iv[i as int].mode_spec() == m {
                iface_fancy_ports(
                    iv[i as int].name_spec(),
                    cat_spec(sname@, iv[i as int].name_spec()),
                    m,
                    iv[i as int].typ_spec(),
                )
            } else {
                Seq::empty()
            };
            assert(out@.map_values(|p: Port| p@) =~= pre.map_values(|p: Port| p@) + head);
            assert(pre.map_values(|p: Port| p@) + head + fancy_iface_ports_from(sname@, iv, m, i
                + 1) =~= pre.map_values(|p: Port| p@) + (head + fancy_iface_ports_from(
                sname@,
                iv,
                m,
                i + 1,
            )));
        }
        i = i + 1;
    }
    proof {
        assert(fancy_iface_ports_from(sname@, iv, m, iv.len() as int) =~= Seq::<PortV>::empty());
        assert(out@.map_values(|p: Port| p@) + Seq::<PortV>::empty() =~= out@.map_values(
            |p: Port| p@,
        ));
    }
}

/// Building common representation components from streamlets.
pub trait Componentify {
    /// The canonical component, with flat ports, under an optional suffix.
    fn canonical(&self, suffix: Option<&str>) -> (r: Component);

    /// The fancy component, with nested record ports, under an optional
    /// suffix.
    fn fancy(&self, suffix: Option<&str>) -> (r: Option<Component>);
}

impl Componentify for Streamlet {
    /// The canonical component: clock, reset, then one flat port per
    /// physical signal of every input, then of every output.
    fn canonical(&self, suffix: Option<&str>) -> (r: Component)
        ensures
            r@ == streamlet_canonical_spec(self, match suffix {
                Some(s) => s@,
                None => Seq::empty(),
            }),
    {
        let name = match suffix {
            Some(s) => cat(self.identifier(), s),
            None => cat(self.identifier(), ""),
        };
        let mut ports: Vec<Port> = Vec::new();
        ports.push(Port::new_documented("clk", Mode::In, Type::Bit, None));
        ports.push(Port::new_documented("rst", Mode::In, Type::Bit, None));
        proof {
            reveal_strlit("");
            assert(ports@.map_values(|p: Port| p@) =~= clk_rst_ports());
        }
        canon_ports_of(self.interfaces(), design::Mode::In, &mut ports);
        canon_ports_of(self.interfaces(), design::Mode::Out, &mut ports);
        let doc = match self.doc() {
            Some(d) => Some(d.clone()),
            None => None,
        };
        let r = Component::new(name.as_str(), Vec::new(), ports, doc);
        proof {
            assert(r@ =~= streamlet_canonical_spec(self, match suffix {
                Some(s) => s@,
                None => Seq::empty(),
            }));
        }
        r
    }

    /// The fancy component: clock, reset, then one nested record port per
    /// interface, inputs first.
    fn fancy(&self, suffix: Option<&str>) -> (r: Option<Component>)
        ensures
            r is Some,
            r is Some ==> r->0@ == streamlet_fancy_spec(self, match suffix {
                Some(s) => s@,
                None => Seq::empty(),
            }),
    {
        let name = match suffix {
            Some(s) => cat(self.identifier(), s),
            None => cat(self.identifier(), ""),
        };
        let mut ports: Vec<Port> = Vec::new();
        ports.push(Port::new_documented("clk", Mode::In, Type::Bit, None));
        ports.push(Port::new_documented("rst", Mode::In, Type::Bit, None));
        proof {
            reveal_strlit("");
            assert(ports@.map_values(|p: Port| p@) =~= clk_rst_ports());
        }
        fancy_ports_of(self.identifier(), self.interfaces(), design::Mode::In, &mut ports);
        fancy_ports_of(self.identifier(), self.interfaces(), design::Mode::Out, &mut ports);
        let doc = match self.doc() {
            Some(d) => Some(d.clone()),
            None => None,
        };
        let r = Component::new(name.as_str(), Vec::new(), ports, doc);
        proof {
            assert(r@ =~= streamlet_fancy_spec(self, match suffix {
                Some(s) => s@,
                None => Seq::empty(),
            }));
        }
        Some(r)
    }
}

/// The canonical package of a library: one canonical component per
/// streamlet, suffixed.
pub open spec fn library_canonical_spec(l: &Library, i: int) -> Seq<ComponentV>
    decreases l.streamlets_spec().len() - i,
{
    if i < 0 || i >= l.streamlets_spec().len() {
        Seq::empty()
    } else {
        seq![streamlet_canonical_spec(&l.streamlets_spec()[i], canon_suffix())]
            + library_canonical_spec(l, i + 1)
    }
}

/// The fancy package of a library: for every streamlet its canonical
/// component, then its fancy component.
pub open spec fn library_fancy_spec(l: &Library, i: int) -> Seq<ComponentV>
    decreases l.streamlets_spec().len() - i,
{
    if i < 0 || i >= l.streamlets_spec().len() {
        Seq::empty()
    } else {
        seq![
            streamlet_canonical_spec(&l.streamlets_spec()[i], canon_suffix()),
            streamlet_fancy_spec(&l.streamlets_spec()[i], Seq::empty()),
        ] + library_fancy_spec(l, i + 1)
    }
}

/// Building common representation packages from libraries.
pub trait Packify {
    /// The canonical package: exact physical signals only.
    fn canonical(&self) -> (r: Package);

    /// The fancy package: each streamlet's canonical component, and its
    /// human-oriented fancy component beside it.
    fn fancy(&self) -> (r: Package);
}

impl Packify for Library {
    /// The canonical package of this library.
    fn canonical(&self) -> (r: Package)
        ensures
            r@.name == self.name_spec(),
            r@.components == library_canonical_spec(self, 0),
    {
        let mut components: Vec<Component> = Vec::new();
        let streamlets = self.streamlets();
        let mut i: usize = 0;
        proof {
            assert(components@.map_values(|c: Component| c@) + library_canonical_spec(self, 0)
                =~= library_canonical_spec(self, 0));
        }
        while i < streamlets.len()
            invariant
                streamlets@ == self.streamlets_spec(),
                i <= streamlets@.len(),
                components@.map_values(|c: Component| c@) + library_canonical_spec(self, i as int)
                    == library_canonical_spec(self, 0),
            decreases streamlets@.len() - i,
        {
            let ghost pre = components@;
            let c = streamlets[i].canonical(Some("com"));
            components.push(c);
            proof {
                reveal_strlit("com");
                assert(components@.map_values(|c2: Component| c2@) =~= pre.map_values(
                    |c2: Component| c2@,
                ) + seq![streamlet_canonical_spec(&self.streamlets_spec()[i as int], canon_suffix())]);
                assert(pre.map_values(|c2: Component| c2@) + seq![
                    streamlet_canonical_spec(&self.streamlets_spec()[i as int], canon_suffix()),
                ] + library_canonical_spec(self, i + 1) =~= pre.map_values(|c2: Component| c2@) + (
                seq![
                    streamlet_canonical_spec(&self.streamlets_spec()[i as int], canon_suffix()),
                ] + library_canonical_spec(self, i + 1)));
            }
            i = i + 1;
        }
        proof {
            assert(library_canonical_spec(self, streamlets@.len() as int)
                =~= Seq::<ComponentV>::empty());
            assert(components@.map_values(|c: Component| c@) + Seq::<ComponentV>::empty()
                =~= components@.map_values(|c: Component| c@));
        }
        Package { identifier: self.name().as_string(), components }
    }

    /// The fancy package of this library. The canonical component always
    /// stands beside the fancy one, so that wrapper generation has a fixed
    /// target.
    fn fancy(&self) -> (r: Package)
        ensures
            r@.name == self.name_spec(),
            r@.components == library_fancy_spec(self, 0),
    {
        let mut components: Vec<Component> = Vec::new();
        let streamlets = self.streamlets();
        let mut i: usize = 0;
        proof {
            assert(components@.map_values(|c: Component| c@) + library_fancy_spec(self, 0)
                =~= library_fancy_spec(self, 0));
        }
        while i < streamlets.len()
            invariant
                streamlets@ == self.streamlets_spec(),
                i <= streamlets@.len(),
                components@.map_values(|c: Component| c@) + library_fancy_spec(self, i as int)
                    == library_fancy_spec(self, 0),
            decreases streamlets@.len() - i,
        {
            let ghost pre = components@;
            let c = streamlets[i].canonical(Some("com"));
            components.push(c);
            match streamlets[i].fancy(None) {
                Some(f) => components.push(f),
                None => {}
            }
            proof {
                reveal_strlit("com");
                assert(components@.map_values(|c2: Component| c2@) =~= pre.map_values(
                    |c2: Component| c2@,
                ) + seq![
                    streamlet_canonical_spec(&self.streamlets_spec()[i as int], canon_suffix()),
                    streamlet_fancy_spec(&self.streamlets_spec()[i as int], Seq::empty()),
                ]);
                assert(pre.map_values(|c2: Component| c2@) + seq![
                    streamlet_canonical_spec(&self.streamlets_spec()[i as int], canon_suffix()),
                    streamlet_fancy_spec(&self.streamlets_spec()[i as int], Seq::empty()),
                ] + library_fancy_spec(self, i + 1) =~= pre.map_values(|c2: Component| c2@) + (
                seq![
                    streamlet_canonical_spec(&self.streamlets_spec()[i as int], canon_suffix()),
                    streamlet_fancy_spec(&self.streamlets_spec()[i as int], Seq::empty()),
                ] + library_fancy_spec(self, i + 1)));
            }
            i = i + 1;
        }
        proof {
            assert(library_fancy_spec(self, streamlets@.len() as int)
                =~= Seq::<ComponentV>::empty());
            assert(components@.map_values(|c: Component| c@) + Seq::<ComponentV>::empty()
                =~= components@.map_values(|c: Component| c@));
        }
        Package { identifier: self.name().as_string(), components }
    }
}

} // verus!

verus! {

/// The packages of a project under one rendering, from index `i` on.
pub open spec fn project_spec(p: &design::Project, fancy: bool, i: int) -> Seq<PackageV>
    decreases p.libraries_spec().len() - i,
{
    if i < 0 || i >= p.libraries_spec().len() {
        Seq::empty()
    } else {
        let l = &p.libraries_spec()[i];
        seq![
            PackageV {
                name: l.name_spec(),
                components: if fancy {
                    library_fancy_spec(l, 0)
                } else {
                    library_canonical_spec(l, 0)
                },
            },
        ] + project_spec(p, fancy, i + 1)
    }
}

/// Building a whole common representation project.
pub trait Projectify {
    /// The canonical project.
    fn canonical(&self) -> (r: crate::common::Project);

    /// The fancy project.
    fn fancy(&self) -> (r: crate::common::Project);
}

impl Projectify for design::Project {
    /// The canonical project: every library's canonical package.
    fn canonical(&self) -> (r: crate::common::Project)
        ensures
            r.identifier@ == self.name_spec(),
            r.libraries@.map_values(|p: Package| p@) == project_spec(self, false, 0),
    {
        let mut libraries: Vec<Package> = Vec::new();
        let libs = self.libraries();
        let mut i: usize = 0;
        proof {
            assert(libraries@.map_values(|p: Package| p@) + project_spec(self, false, 0)
                =~= project_spec(self, false, 0));
        }
        while i < libs.len()
            invariant
                libs@ == self.libraries_spec(),
                i <= libs@.len(),
                libraries@.map_values(|p: Package| p@) + project_spec(self, false, i as int)
                    == project_spec(self, false, 0),
            decreases libs@.len() - i,
        {
            let ghost pre = libraries@;
            let pkg = libs[i].canonical();
            libraries.push(pkg);
            proof {
                assert(libraries@.map_values(|p: Package| p@) =~= pre.map_values(|p: Package| p@)
                    + seq![
                    PackageV {
                        name: self.libraries_spec()[i as int].name_spec(),
                        components: library_canonical_spec(&self.libraries_spec()[i as int], 0),
                    },
                ]);
                assert(pre.map_values(|p: Package| p@) + seq![
                    PackageV {
                        name: self.libraries_spec()[i as int].name_spec(),
                        components: library_canonical_spec(&self.libraries_spec()[i as int], 0),
                    },
                ] + project_spec(self, false, i + 1) =~= pre.map_values(|p: Package| p@) + (seq![
                    PackageV {
                        name: self.libraries_spec()[i as int].name_spec(),
                        components: library_canonical_spec(&self.libraries_spec()[i as int], 0),
                    },
                ] + project_spec(self, false, i + 1)));
            }
            i = i + 1;
        }
        proof {
            assert(project_spec(self, false, libs@.len() as int) =~= Seq::<PackageV>::empty());
            assert(libraries@.map_values(|p: Package| p@) + Seq::<PackageV>::empty()
                =~= libraries@.map_values(|p: Package| p@));
        }
        crate::common::Project { identifier: self.name().as_string(), libraries }
    }

    /// The fancy project: every library's fancy package.
    fn fancy(&self) -> (r: crate::common::Project)
        ensures
            r.identifier@ == self.name_spec(),
            r.libraries@.map_values(|p: Package| p@) == project_spec(self, true, 0),
    {
        let mut libraries: Vec<Package> = Vec::new();
        let libs = self.libraries();
        let mut i: usize = 0;
        proof {
            assert(libraries@.map_values(|p: Package| p@) + project_spec(self, true, 0)
                =~= project_spec(self, true, 0));
        }
        while i < libs.len()
            invariant
                libs@ == self.libraries_spec(),
                i <= libs@.len(),
                libraries@.map_values(|p: Package| p@) + project_spec(self, true, i as int)
                    == project_spec(self, true, 0),
            decreases libs@.len() - i,
        {
            let ghost pre = libraries@;
            let pkg = libs[i].fancy();
            libraries.push(pkg);
            proof {
                assert(libraries@.map_values(|p: Package| p@) =~= pre.map_values(|p: Package| p@)
                    + seq![
                    PackageV {
                        name: self.libraries_spec()[i as int].name_spec(),
                        components: library_fancy_spec(&self.libraries_spec()[i as int], 0),
                    },
                ]);
                assert(pre.map_values(|p: Package| p@) + seq![
                    PackageV {
                        name: self.libraries_spec()[i as int].name_spec(),
                        components: library_fancy_spec(&self.libraries_spec()[i as int], 0),
                    },
                ] + project_spec(self, true, i + 1) =~= pre.map_values(|p: Package| p@) + (seq![
                    PackageV {
                        name: self.libraries_spec()[i as int].name_spec(),
                        components: library_fancy_spec(&self.libraries_spec()[i as int], 0),
                    },
                ] + project_spec(self, true, i + 1)));
            }
            i = i + 1;
        }
        proof {
            assert(project_spec(self, true, libs@.len() as int) =~= Seq::<PackageV>::empty());
            assert(libraries@.map_values(|p: Package| p@) + Seq::<PackageV>::empty()
                =~= libraries@.map_values(|p: Package| p@));
        }
        crate::common::Project { identifier: self.name().as_string(), libraries }
    }
}

// ---------------------------------------------------------------------------
// Back-end entry points
// ---------------------------------------------------------------------------

/// Abstraction levels of the generated sources.
#[derive(Debug, Clone, Copy, PartialEq, Eq, Structural)]
pub enum AbstractionLevel {
    /// The exact physical signals of each streamlet, as flat ports.
    Canonical,
    /// Nested record ports beside the canonical components.
    Fancy,
}

impl Default for AbstractionLevel {
    /// The default level renders the nested, human-oriented form.
    fn default() -> (r: Self)
        ensures
            r == AbstractionLevel::Fancy,
    {
        AbstractionLevel::Fancy
    }
}

impl AbstractionLevel {
    /// Parses a level name.
    pub fn from_str(s: &str) -> (r: Result<AbstractionLevel, Error>)
        ensures
            s@ == "canon"@ ==> r == Ok::<AbstractionLevel, Error>(AbstractionLevel::Canonical),
            s@ == "fancy"@ ==> r == Ok::<AbstractionLevel, Error>(AbstractionLevel::Fancy),
            !(s@ == "canon"@ || s@ == "fancy"@) ==> r is Err && r->Err_0 is InvalidArgument,
    {
        proof {
            reveal_strlit("canon");
            reveal_strlit("fancy");
            assert("canon"@[0] == 'c' && "fancy"@[0] == 'f');
            assert("canon"@ != "fancy"@);
        }
        if str_same(s, "canon") {
            Ok(AbstractionLevel::Canonical)
        } else if str_same(s, "fancy") {
            Ok(AbstractionLevel::Fancy)
        } else {
            Err(Error::InvalidArgument(String::from_str(s)))
        }
    }
}

/// Whether two strings hold the same characters.
fn str_same(a: &str, b: &str) -> (r: bool)
    ensures
        r <==> a@ == b@,
{
    let sa = String::from_str(a);
    let sb = String::from_str(b);
    sa == sb
}

/// Configuration of the VHDL back-end: the abstraction level and the suffix
/// of generated file names.
#[derive(Debug)]
pub struct VHDLConfig {
    pub abstraction: Option<AbstractionLevel>,
    pub suffix: Option<String>,
}

impl Default for VHDLConfig {
    /// The default renders the fancy level into files suffixed before the
    /// extension.
    fn default() -> (r: Self)
        ensures
            r.abstraction == Some(AbstractionLevel::Fancy),
            r.suffix is Some && r.suffix->0@ == "gen"@,
    {
        VHDLConfig { suffix: Some(String::from_str("gen")), abstraction: Some(
            AbstractionLevel::Fancy,
        ) }
    }
}

impl VHDLConfig {
    /// The configured abstraction level, the default when unset.
    pub fn abstraction(&self) -> (r: AbstractionLevel)
        ensures
            r == (match self.abstraction {
                Some(a) => a,
                None => AbstractionLevel::Fancy,
            }),
    {
        match self.abstraction {
            Some(a) => a,
            None => AbstractionLevel::Fancy,
        }
    }
}

/// The configurable VHDL back-end entry point.
#[derive(Debug)]
pub struct VHDLBackEnd {
    pub config: VHDLConfig,
}

impl Default for VHDLBackEnd {
    /// A back-end under the default configuration.
    fn default() -> (r: Self)
        ensures
            r.config.abstraction == Some(AbstractionLevel::Fancy),
    {
        VHDLBackEnd { config: VHDLConfig::default() }
    }
}

impl VHDLBackEnd {
    /// The configuration of this back-end.
    pub fn config(&self) -> (r: &VHDLConfig)
        ensures
            r == &self.config,
    {
        &self.config
    }

    /// Wraps a configuration.
    pub fn from_config(config: VHDLConfig) -> (r: VHDLBackEnd)
        ensures
            r.config == config,
    {
        VHDLBackEnd { config }
    }

    /// The name of the file a library's package is written to:
    /// the library's name, a package marker, the configured suffix when one
    /// is set, and the target extension.
    pub fn package_file_name(&self, lib: &Library) -> (r: String)
        ensures
            r@ == lib.name_spec() + "_pkg"@ + (match self.config.suffix {
                Some(s) => "."@ + s@,
                None => Seq::empty(),
            }) + ".vhd"@,
    {
        let mut out = lib.name().as_string();
        out.append("_pkg");
        if let Some(s) = &self.config.suffix {
            out.append(".");
            out.append(s.as_str());
        }
        out.append(".vhd");
        proof {
            assert(out@ =~= lib.name_spec() + "_pkg"@ + (match self.config.suffix {
                Some(s) => "."@ + s@,
                None => Seq::<char>::empty(),
            }) + ".vhd"@);
        }
        out
    }

    /// The source text of one library's package under this configuration.
    /// Fails exactly when the package cannot be declared.
    pub fn package_source(&self, lib: &Library) -> (r: Result<String, Error>)
        ensures
            r is Ok <==> crate::vhdl::package_decl_spec(
                PackageV {
                    name: lib.name_spec(),
                    components: (match self.config.abstraction {
                        Some(AbstractionLevel::Canonical) => library_canonical_spec(lib, 0),
                        _ => library_fancy_spec(lib, 0),
                    }),
                },
            ) is Some,
            r is Ok ==> r->Ok_0@ == crate::vhdl::package_decl_spec(
                PackageV {
                    name: lib.name_spec(),
                    components: (match self.config.abstraction {
                        Some(AbstractionLevel::Canonical) => library_canonical_spec(lib, 0),
                        _ => library_fancy_spec(lib, 0),
                    }),
                },
            )->0,
            r is Err ==> r->Err_0 is BackEndError,
    {
        let pak = match self.config().abstraction() {
            AbstractionLevel::Canonical => lib.canonical(),
            AbstractionLevel::Fancy => lib.fancy(),
        };
        let r = crate::vhdl::Declare::declare(&pak);
        proof {
            assert(pak@ =~= PackageV {
                name: lib.name_spec(),
                components: (match self.config.abstraction {
                    Some(AbstractionLevel::Canonical) => library_canonical_spec(lib, 0),
                    _ => library_fancy_spec(lib, 0),
                }),
            });
        }
        r
    }
}

} // verus!
