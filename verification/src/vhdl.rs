//! The VHDL back-end: directional splitting of mixed-direction composites,
//! identifier and declaration rendering, and whole-package declaration with
//! type deduplication.

use vstd::prelude::*;

use crate::common::{
    field_view, fields_have_reversed, fields_view, lemma_fields_view, record_view,
    type_has_reversed, Array, ArrayV, Component, ComponentV, Field, FieldV, Mode, Package,
    PackageV, Port, PortV, Record, RecordV, Type, TypeV,
};
use crate::util::{cat, cat_spec, cat3, dec_str, u32_string};
use crate::{Error, Name};

verus! {

// ---------------------------------------------------------------------------
// Directional split
// ---------------------------------------------------------------------------

/// The two directional halves of a field: its forward part and its reverse
/// part, with direction flags cleared. A reversed field swaps the halves of
/// its split type.
pub open spec fn split_field_v(f: FieldV) -> (Option<FieldV>, Option<FieldV>)
    decreases f,
{
    let halves = split_type_v(f.typ);
    let d = match halves.0 {
        Some(t) => Some(FieldV { name: f.name, typ: t, reversed: false, doc: None }),
        None => None,
    };
    let u = match halves.1 {
        Some(t) => Some(FieldV { name: f.name, typ: t, reversed: false, doc: None }),
        None => None,
    };
    if f.reversed {
        (u, d)
    } else {
        (d, u)
    }
}

/// The halves of every field, gathered in order; absent halves are dropped.
pub open spec fn split_fields_v(fs: Seq<FieldV>) -> (Seq<FieldV>, Seq<FieldV>)
    decreases fs,
{
    if fs.len() == 0 {
        (Seq::empty(), Seq::empty())
    } else {
        let head = split_field_v(fs[0]);
        let tail = split_fields_v(fs.skip(1));
        (opt_seq(head.0) + tail.0, opt_seq(head.1) + tail.1)
    }
}

/// An optional value as a sequence of zero or one elements.
pub open spec fn opt_seq(f: Option<FieldV>) -> Seq<FieldV> {
    match f {
        Some(x) => seq![x],
        None => Seq::empty(),
    }
}

/// The two directional halves of a record; a half with no fields is absent.
pub open spec fn split_record_v(r: RecordV) -> (Option<RecordV>, Option<RecordV>)
    decreases r,
{
    let halves = split_fields_v(r.fields);
    (
        if halves.0.len() == 0 {
            None
        } else {
            Some(RecordV { name: r.name, fields: halves.0 })
        },
        if halves.1.len() == 0 {
            None
        } else {
            Some(RecordV { name: r.name, fields: halves.1 })
        },
    )
}

/// The two directional halves of a type. Only records and unions are split;
/// every other type is purely forward.
pub open spec fn split_type_v(t: TypeV) -> (Option<TypeV>, Option<TypeV>)
    decreases t,
{
    match t {
        TypeV::Record(r) => {
            let halves = split_record_v(r);
            (
                match halves.0 {
                    Some(r) => Some(TypeV::Record(r)),
                    None => None,
                },
                match halves.1 {
                    Some(r) => Some(TypeV::Record(r)),
                    None => None,
                },
            )
        }
        TypeV::Union(r) => {
            let halves = split_record_v(r);
            (
                match halves.0 {
                    Some(r) => Some(TypeV::Union(r)),
                    None => None,
                },
                match halves.1 {
                    Some(r) => Some(TypeV::Union(r)),
                    None => None,
                },
            )
        }
        _ => (Some(t), None),
    }
}

/// The two directional halves of an array: the halves of its element type.
pub open spec fn split_array_v(a: ArrayV) -> (Option<ArrayV>, Option<ArrayV>) {
    let halves = split_type_v(a.typ);
    (
        match halves.0 {
            Some(t) => Some(ArrayV { name: a.name, typ: t, width: a.width }),
            None => None,
        },
        match halves.1 {
            Some(t) => Some(ArrayV { name: a.name, typ: t, width: a.width }),
            None => None,
        },
    )
}

/// A type with every direction flag cleared.
pub open spec fn clear_directions(t: TypeV) -> TypeV
    decreases t,
{
    match t {
        TypeV::Record(r) => TypeV::Record(RecordV { name: r.name, fields: clear_fields(r.fields) }),
        TypeV::Union(r) => TypeV::Union(RecordV { name: r.name, fields: clear_fields(r.fields) }),
        _ => t,
    }
}

/// Fields with every direction flag cleared, documentation dropped.
pub open spec fn clear_fields(fs: Seq<FieldV>) -> Seq<FieldV>
    decreases fs,
{
    if fs.len() == 0 {
        Seq::empty()
    } else {
        seq![
            FieldV {
                name: fs[0].name,
                typ: clear_directions(fs[0].typ),
                reversed: false,
                doc: None,
            },
        ] + clear_fields(fs.skip(1))
    }
}

/// Whether every field reachable below the type is forward and undocumented,
/// so that splitting it changes nothing.
pub open spec fn purely_forward(t: TypeV) -> bool
    decreases t,
{
    match t {
        TypeV::Record(r) => fields_purely_forward(r.fields),
        TypeV::Union(r) => fields_purely_forward(r.fields),
        _ => true,
    }
}

/// Whether every field of the list is forward, undocumented and has a
/// purely-forward type.
pub open spec fn fields_purely_forward(fs: Seq<FieldV>) -> bool
    decreases fs,
{
    if fs.len() == 0 {
        true
    } else {
        !fs[0].reversed && fs[0].doc is None && purely_forward(fs[0].typ)
            && fields_purely_forward(fs.skip(1))
    }
}

/// Whether the type is non-trivial for splitting: a record or union half
/// only survives when it keeps at least one field.
pub open spec fn split_nonempty(t: TypeV) -> bool
    decreases t,
{
    match t {
        TypeV::Record(r) => r.fields.len() > 0 && fields_split_nonempty(r.fields),
        TypeV::Union(r) => r.fields.len() > 0 && fields_split_nonempty(r.fields),
        _ => true,
    }
}

/// Whether every field's type is non-trivial for splitting.
pub open spec fn fields_split_nonempty(fs: Seq<FieldV>) -> bool
    decreases fs,
{
    if fs.len() == 0 {
        true
    } else {
        split_nonempty(fs[0].typ) && fields_split_nonempty(fs.skip(1))
    }
}

/// Law: splitting a purely-forward type returns the type itself as the
/// forward half and no reverse half.
pub proof fn lemma_split_purely_forward(t: TypeV)
    requires
        purely_forward(t),
        split_nonempty(t),
    ensures
        split_type_v(t) == (Some(t), None::<TypeV>),
    decreases t,
{
    match t {
        TypeV::Record(r) => {
            lemma_split_fields_purely_forward(r.fields);
            assert(split_fields_v(r.fields).0 =~= r.fields);
        }
        TypeV::Union(r) => {
            lemma_split_fields_purely_forward(r.fields);
            assert(split_fields_v(r.fields).0 =~= r.fields);
        }
        _ => {}
    }
}

proof fn lemma_split_fields_purely_forward(fs: Seq<FieldV>)
    requires
        fields_purely_forward(fs),
        fields_split_nonempty(fs),
    ensures
        split_fields_v(fs).0 == fs,
        split_fields_v(fs).1 == Seq::<FieldV>::empty(),
    decreases fs,
{
    if fs.len() == 0 {
        assert(split_fields_v(fs).0 =~= fs);
        assert(split_fields_v(fs).1 =~= Seq::<FieldV>::empty());
    } else {
        lemma_split_fields_purely_forward(fs.skip(1));
        lemma_split_purely_forward(fs[0].typ);
        assert(split_field_v(fs[0]) == (Some(fs[0]), None::<FieldV>)) by {
            assert(FieldV {
                name: fs[0].name,
                typ: fs[0].typ,
                reversed: false,
                doc: None,
            } =~= fs[0]);
        };
        assert(split_fields_v(fs).0 =~= fs);
        assert(split_fields_v(fs).1 =~= Seq::<FieldV>::empty());
    }
}

/// Whether every immediate field of a record or union is reversed and every
/// type below is purely forward: the shape whose split is wholly reverse.
pub open spec fn purely_reversed(t: TypeV) -> bool {
    match t {
        TypeV::Record(r) => r.fields.len() > 0 && (forall|i: int|
            0 <= i < r.fields.len() ==> (#[trigger] r.fields[i]).reversed && r.fields[i].doc
                is None && purely_forward(r.fields[i].typ) && split_nonempty(r.fields[i].typ)),
        TypeV::Union(r) => r.fields.len() > 0 && (forall|i: int|
            0 <= i < r.fields.len() ==> (#[trigger] r.fields[i]).reversed && r.fields[i].doc
                is None && purely_forward(r.fields[i].typ) && split_nonempty(r.fields[i].typ)),
        _ => false,
    }
}

/// Law: splitting a record or union whose fields are all reversed returns no
/// forward half, and a reverse half that is the input with its direction
/// flags cleared.
pub proof fn lemma_split_purely_reversed(t: TypeV)
    ensures
        purely_reversed(t) ==> split_type_v(t) == (None::<TypeV>, Some(clear_directions(t))),
{
    match t {
        TypeV::Record(r) => {
            if purely_reversed(t) {
                lemma_split_fields_purely_reversed(r.fields);
                assert(clear_directions(t) == TypeV::Record(
                    RecordV { name: r.name, fields: clear_fields(r.fields) },
                ));
            }
        }
        TypeV::Union(r) => {
            if purely_reversed(t) {
                lemma_split_fields_purely_reversed(r.fields);
                assert(clear_directions(t) == TypeV::Union(
                    RecordV { name: r.name, fields: clear_fields(r.fields) },
                ));
            }
        }
        _ => {}
    }
}

proof fn lemma_split_fields_purely_reversed(fs: Seq<FieldV>)
    requires
        forall|i: int|
            0 <= i < fs.len() ==> (#[trigger] fs[i]).reversed && fs[i].doc is None
                && purely_forward(fs[i].typ) && split_nonempty(fs[i].typ),
    ensures
        split_fields_v(fs).0 == Seq::<FieldV>::empty(),
        split_fields_v(fs).1 == clear_fields(fs),
    decreases fs,
{
    if fs.len() == 0 {
        assert(split_fields_v(fs).0 =~= Seq::<FieldV>::empty());
        assert(split_fields_v(fs).1 =~= clear_fields(fs));
    } else {
        assert forall|i: int| 0 <= i < fs.skip(1).len() implies (#[trigger] fs.skip(1)[i]).reversed
            && fs.skip(1)[i].doc is None && purely_forward(fs.skip(1)[i].typ) && split_nonempty(
            fs.skip(1)[i].typ,
        ) by {
            assert(fs.skip(1)[i] == fs[i + 1]);
        };
        lemma_split_fields_purely_reversed(fs.skip(1));
        lemma_split_purely_forward(fs[0].typ);
        lemma_clear_purely_forward(fs[0].typ);
        assert(fs[0].reversed);
        assert(split_type_v(fs[0].typ) == (Some(fs[0].typ), None::<TypeV>));
        assert(split_field_v(fs[0]) == (
            None::<FieldV>,
            Some(FieldV { name: fs[0].name, typ: fs[0].typ, reversed: false, doc: None }),
        ));
        assert(clear_fields(fs)[0] == FieldV {
            name: fs[0].name,
            typ: fs[0].typ,
            reversed: false,
            doc: None,
        });
        assert(split_fields_v(fs).0 =~= Seq::<FieldV>::empty());
        assert(split_fields_v(fs).1 =~= clear_fields(fs));
    }
}

/// Clearing directions of a purely-forward type changes nothing.
pub proof fn lemma_clear_purely_forward(t: TypeV)
    requires
        purely_forward(t),
    ensures
        clear_directions(t) == t,
    decreases t,
{
    match t {
        TypeV::Record(r) => {
            lemma_clear_fields_purely_forward(r.fields);
        }
        TypeV::Union(r) => {
            lemma_clear_fields_purely_forward(r.fields);
        }
        _ => {}
    }
}

proof fn lemma_clear_fields_purely_forward(fs: Seq<FieldV>)
    requires
        fields_purely_forward(fs),
    ensures
        clear_fields(fs) == fs,
    decreases fs,
{
    if fs.len() == 0 {
        assert(clear_fields(fs) =~= fs);
    } else {
        lemma_clear_fields_purely_forward(fs.skip(1));
        lemma_clear_purely_forward(fs[0].typ);
        assert(clear_fields(fs)[0] =~= fs[0]);
        assert(clear_fields(fs) =~= fs);
    }
}

} // verus!

verus! {

// ---------------------------------------------------------------------------
// Executable split
// ---------------------------------------------------------------------------

/// The split of the first `i` fields.
pub open spec fn split_fields_upto(fs: Seq<FieldV>, i: int) -> (Seq<FieldV>, Seq<FieldV>)
    decreases i,
{
    if i <= 0 {
        (Seq::empty(), Seq::empty())
    } else {
        let prev = split_fields_upto(fs, i - 1);
        let head = split_field_v(fs[i - 1]);
        (prev.0 + opt_seq(head.0), prev.1 + opt_seq(head.1))
    }
}

proof fn lemma_split_fields_step(fs: Seq<FieldV>, i: int)
    requires
        0 <= i <= fs.len(),
    ensures
        (split_fields_upto(fs, i).0 + split_fields_from(fs, i).0, split_fields_upto(fs, i).1
            + split_fields_from(fs, i).1) == split_fields_from(fs, 0),
    decreases i,
{
    if i == 0 {
        assert(split_fields_upto(fs, 0).0 + split_fields_from(fs, 0).0 =~= split_fields_from(
            fs,
            0,
        ).0);
        assert(split_fields_upto(fs, 0).1 + split_fields_from(fs, 0).1 =~= split_fields_from(
            fs,
            0,
        ).1);
        assert((split_fields_upto(fs, 0).0 + split_fields_from(fs, 0).0, split_fields_upto(fs, 0).1
            + split_fields_from(fs, 0).1) =~= split_fields_from(fs, 0));
    } else {
        lemma_split_fields_step(fs, i - 1);
        assert((split_fields_upto(fs, i - 1).0 + opt_seq(split_field_v(fs[i - 1]).0))
            + split_fields_from(fs, i).0 =~= split_fields_upto(fs, i - 1).0 + (opt_seq(
            split_field_v(fs[i - 1]).0,
        ) + split_fields_from(fs, i).0));
        assert((split_fields_upto(fs, i - 1).1 + opt_seq(split_field_v(fs[i - 1]).1))
            + split_fields_from(fs, i).1 =~= split_fields_upto(fs, i - 1).1 + (opt_seq(
            split_field_v(fs[i - 1]).1,
        ) + split_fields_from(fs, i).1));
    }
}

/// The split of the fields from index `i` on.
pub open spec fn split_fields_from(fs: Seq<FieldV>, i: int) -> (Seq<FieldV>, Seq<FieldV>)
    decreases fs.len() - i,
{
    if i < 0 || i >= fs.len() {
        (Seq::empty(), Seq::empty())
    } else {
        let head = split_field_v(fs[i]);
        let tail = split_fields_from(fs, i + 1);
        (opt_seq(head.0) + tail.0, opt_seq(head.1) + tail.1)
    }
}

proof fn lemma_split_fields_from_shift(fs: Seq<FieldV>, i: int)
    requires
        1 <= i <= fs.len(),
    ensures
        split_fields_from(fs, i) == split_fields_from(fs.skip(1), i - 1),
    decreases fs.len() - i,
{
    if i < fs.len() {
        lemma_split_fields_from_shift(fs, i + 1);
        assert(fs.skip(1)[i - 1] == fs[i]);
    } else {
        assert(split_fields_from(fs, i).0 =~= split_fields_from(fs.skip(1), i - 1).0);
        assert(split_fields_from(fs, i).1 =~= split_fields_from(fs.skip(1), i - 1).1);
        assert(split_fields_from(fs, i) =~= split_fields_from(fs.skip(1), i - 1));
    }
}

proof fn lemma_split_fields_as_from(fs: Seq<FieldV>)
    ensures
        split_fields_v(fs) == split_fields_from(fs, 0),
    decreases fs,
{
    if fs.len() > 0 {
        lemma_split_fields_as_from(fs.skip(1));
        lemma_split_fields_from_shift(fs, 1);
    } else {
        assert(split_fields_v(fs) =~= split_fields_from(fs, 0));
    }
}

/// The whole split is the prefix over all fields.
pub proof fn lemma_split_fields_full(fs: Seq<FieldV>)
    ensures
        split_fields_upto(fs, fs.len() as int) == split_fields_v(fs),
{
    lemma_split_fields_step(fs, fs.len() as int);
    lemma_split_fields_as_from(fs);
    assert(split_fields_from(fs, fs.len() as int).0 =~= Seq::<FieldV>::empty());
    assert(split_fields_from(fs, fs.len() as int).1 =~= Seq::<FieldV>::empty());
    assert(split_fields_upto(fs, fs.len() as int).0 + Seq::<FieldV>::empty()
        =~= split_fields_upto(fs, fs.len() as int).0);
    assert(split_fields_upto(fs, fs.len() as int).1 + Seq::<FieldV>::empty()
        =~= split_fields_upto(fs, fs.len() as int).1);
    assert(split_fields_upto(fs, fs.len() as int) =~= (
        split_fields_upto(fs, fs.len() as int).0 + Seq::<FieldV>::empty(),
        split_fields_upto(fs, fs.len() as int).1 + Seq::<FieldV>::empty(),
    ));
}

/// Splitting a value into a forward-only and a reverse-only version, since
/// the target format cannot carry a bundle of wires with opposite
/// directions.
pub trait Split: Sized {
    /// Splits this value into its forward (downstream) and reverse
    /// (upstream) halves, if any.
    fn split(&self) -> (r: (Option<Self>, Option<Self>));
}

impl Split for Type {
    /// Splits along the directional halves of the type.
    fn split(&self) -> (r: (Option<Type>, Option<Type>))
        ensures
            r.0 is Some <==> split_type_v(self@).0 is Some,
            r.1 is Some <==> split_type_v(self@).1 is Some,
            r.0 is Some ==> r.0->0@ == split_type_v(self@).0->0,
            r.1 is Some ==> r.1->0@ == split_type_v(self@).1->0,
        decreases self,
    {
        match self {
            Type::Record(rec) => {
                let halves = rec.split();
                (
                    match halves.0 {
                        Some(d) => Some(Type::Record(d)),
                        None => None,
                    },
                    match halves.1 {
                        Some(u) => Some(Type::Record(u)),
                        None => None,
                    },
                )
            }
            Type::Union(rec) => {
                let halves = rec.split();
                (
                    match halves.0 {
                        Some(d) => Some(Type::Union(d)),
                        None => None,
                    },
                    match halves.1 {
                        Some(u) => Some(Type::Union(u)),
                        None => None,
                    },
                )
            }
            _ => (Some(self.clone()), None),
        }
    }
}

impl Split for Field {
    /// Splits the field; a reversed field swaps its halves.
    fn split(&self) -> (r: (Option<Field>, Option<Field>))
        ensures
            r.0 is Some <==> split_field_v(self@).0 is Some,
            r.1 is Some <==> split_field_v(self@).1 is Some,
            r.0 is Some ==> r.0->0@ == split_field_v(self@).0->0,
            r.1 is Some ==> r.1->0@ == split_field_v(self@).1->0,
        decreases self,
    {
        let halves = self.typ.split();
        let d = match halves.0 {
            Some(t) => Some(Field::new(self.identifier(), t, false, None)),
            None => None,
        };
        let u = match halves.1 {
            Some(t) => Some(Field::new(self.identifier(), t, false, None)),
            None => None,
        };
        if self.is_reversed() {
            (u, d)
        } else {
            (d, u)
        }
    }
}

impl Split for Record {
    /// Splits the record fieldwise; an empty half is absent.
    fn split(&self) -> (r: (Option<Record>, Option<Record>))
        ensures
            r.0 is Some <==> split_record_v(self@).0 is Some,
            r.1 is Some <==> split_record_v(self@).1 is Some,
            r.0 is Some ==> r.0->0@ == split_record_v(self@).0->0,
            r.1 is Some ==> r.1->0@ == split_record_v(self@).1->0,
        decreases self,
    {
        let ghost fv = self@.fields;
        let mut down: Vec<Field> = Vec::new();
        let mut up: Vec<Field> = Vec::new();
        let mut i: usize = 0;
        proof {
            lemma_fields_view(self.fields@);
            assert(fields_view(down@) =~= split_fields_upto(fv, 0).0);
            assert(fields_view(up@) =~= split_fields_upto(fv, 0).1);
        }
        while i < self.fields.len()
            invariant
                fv == self@.fields,
                self.fields@.len() == fv.len(),
                forall|j: int| 0 <= j < fv.len() ==> (#[trigger] self.fields@[j])@ == fv[j],
                i <= fv.len(),
                fields_view(down@) == split_fields_upto(fv, i as int).0,
                fields_view(up@) == split_fields_upto(fv, i as int).1,
            decreases fv.len() - i,
        {
            let halves = self.fields[i].split();
            proof {
                lemma_fields_view(down@);
                lemma_fields_view(up@);
            }
            let ghost down_pre = down@;
            let ghost up_pre = up@;
            if let Some(df) = halves.0 {
                down.push(df);
            }
            if let Some(uf) = halves.1 {
                up.push(uf);
            }
            proof {
                lemma_fields_view(down_pre);
                lemma_fields_view(up_pre);
                lemma_fields_view(down@);
                lemma_fields_view(up@);
                assert(fields_view(down@) =~= split_fields_upto(fv, (i + 1) as int).0);
                assert(fields_view(up@) =~= split_fields_upto(fv, (i + 1) as int).1);
            }
            i = i + 1;
        }
        proof {
            lemma_split_fields_full(fv);
            lemma_fields_view(down@);
            lemma_fields_view(up@);
        }
        let down_rec = if down.len() == 0 {
            None
        } else {
            proof {
                lemma_fields_view(down@);
            }
            Some(Record::new(self.identifier(), down))
        };
        let up_rec = if up.len() == 0 {
            None
        } else {
            Some(Record::new(self.identifier(), up))
        };
        (down_rec, up_rec)
    }
}

impl Split for Array {
    /// Splits the element type; each half keeps the name and length.
    fn split(&self) -> (r: (Option<Array>, Option<Array>))
        ensures
            r.0 is Some <==> split_array_v(self@).0 is Some,
            r.1 is Some <==> split_array_v(self@).1 is Some,
            r.0 is Some ==> r.0->0@ == split_array_v(self@).0->0,
            r.1 is Some ==> r.1->0@ == split_array_v(self@).1->0,
    {
        let halves = self.typ().split();
        (
            match halves.0 {
                Some(t) => Some(Array::new(self.identifier(), t, self.width())),
                None => None,
            },
            match halves.1 {
                Some(t) => Some(Array::new(self.identifier(), t, self.width())),
                None => None,
            },
        )
    }
}

} // verus!

verus! {

// ---------------------------------------------------------------------------
// Identifiers
// ---------------------------------------------------------------------------

/// The VHDL rendering of a port mode.
pub open spec fn mode_id_spec(m: Mode) -> Seq<char> {
    match m {
        Mode::In => "in"@,
        Mode::Out => "out"@,
    }
}

/// The VHDL rendering of a primitive type; a zero-width vector is widened
/// to one bit.
pub open spec fn primitive_decl_spec(t: TypeV) -> Seq<char> {
    match t {
        TypeV::Bit => "std_logic"@,
        TypeV::Natural => "natural"@,
        TypeV::Positive => "positive"@,
        TypeV::BitVec(w) => "std_logic_vector("@ + dec_str((if w == 0 {
            0
        } else {
            w - 1
        }) as nat) + " downto 0)"@,
        _ => Seq::empty(),
    }
}

/// The VHDL identifier of a type: composites use their declared type name,
/// primitives are written out.
pub open spec fn type_id_spec(t: TypeV) -> Seq<char> {
    match t {
        TypeV::Record(r) => cat_spec(r.name, "type"@),
        TypeV::Union(r) => cat_spec(r.name, "type"@),
        TypeV::Array(a) => cat_spec(a.name, "type"@),
        _ => primitive_decl_spec(t),
    }
}

/// Generating VHDL identifiers.
pub trait VHDLIdentifier {
    /// Generates a VHDL identifier for this value.
    fn vhdl_identifier(&self) -> (r: Result<String, Error>);
}

impl VHDLIdentifier for Mode {
    /// The keyword of the mode.
    fn vhdl_identifier(&self) -> (r: Result<String, Error>)
        ensures
            r is Ok,
            r is Ok ==> r->Ok_0@ == mode_id_spec(*self),
    {
        match self {
            Mode::In => Ok(String::from_str("in")),
            Mode::Out => Ok(String::from_str("out")),
        }
    }
}

/// Renders the identifier of a type.
fn type_identifier(t: &Type) -> (r: String)
    ensures
        r@ == type_id_spec(t@),
{
    match t {
        Type::Record(rec) => cat(rec.identifier(), "type"),
        Type::Union(rec) => cat(rec.identifier(), "type"),
        Type::Array(a) => cat(a.identifier(), "type"),
        Type::Bit => String::from_str("std_logic"),
        Type::Natural => String::from_str("natural"),
        Type::Positive => String::from_str("positive"),
        Type::BitVec { width } => {
            let w = if *width == 0 {
                0
            } else {
                *width - 1
            };
            let mut s = String::from_str("std_logic_vector(");
            s.append(u32_string(w).as_str());
            s.append(" downto 0)");
            s
        }
    }
}

impl VHDLIdentifier for Type {
    /// The identifier of the type: composites use their declared name.
    fn vhdl_identifier(&self) -> (r: Result<String, Error>)
        ensures
            r is Ok,
            r is Ok ==> r->Ok_0@ == type_id_spec(self@),
    {
        Ok(type_identifier(self))
    }
}

impl VHDLIdentifier for Record {
    /// The declared type name of the record.
    fn vhdl_identifier(&self) -> (r: Result<String, Error>)
        ensures
            r is Ok,
            r is Ok ==> r->Ok_0@ == cat_spec(self@.name, "type"@),
    {
        Ok(cat(self.identifier(), "type"))
    }
}

impl VHDLIdentifier for Array {
    /// The declared type name of the array.
    fn vhdl_identifier(&self) -> (r: Result<String, Error>)
        ensures
            r is Ok,
            r is Ok ==> r->Ok_0@ == cat_spec(self@.name, "type"@),
    {
        Ok(cat(self.identifier(), "type"))
    }
}

impl VHDLIdentifier for Port {
    /// The name of the port.
    fn vhdl_identifier(&self) -> (r: Result<String, Error>)
        ensures
            r is Ok,
            r is Ok ==> r->Ok_0@ == self@.name,
    {
        Ok(String::from_str(self.identifier()))
    }
}

// ---------------------------------------------------------------------------
// Structural type equality
// ---------------------------------------------------------------------------

/// Whether two types have the same mathematical content.
fn type_eq(a: &Type, b: &Type) -> (r: bool)
    ensures
        r <==> a@ == b@,
    decreases a,
{
    match (a, b) {
        (Type::Bit, Type::Bit) => true,
        (Type::Natural, Type::Natural) => true,
        (Type::Positive, Type::Positive) => true,
        (Type::BitVec { width: wa }, Type::BitVec { width: wb }) => wa == wb,
        (Type::Record(ra), Type::Record(rb)) => record_eq(ra, rb),
        (Type::Union(ra), Type::Union(rb)) => record_eq(ra, rb),
        (Type::Array(aa), Type::Array(ab)) => {
            let names = str_eq(aa.identifier.as_str(), ab.identifier.as_str());
            names && aa.width == ab.width && type_eq(&aa.typ, &ab.typ)
        }
        _ => false,
    }
}

/// Whether two records have the same name and fields.
fn record_eq(a: &Record, b: &Record) -> (r: bool)
    ensures
        r <==> a@ == b@,
    decreases a,
{
    proof {
        lemma_fields_view(a.fields@);
        lemma_fields_view(b.fields@);
    }
    if !str_eq(a.identifier.as_str(), b.identifier.as_str()) {
        return false;
    }
    if a.fields.len() != b.fields.len() {
        proof {
            assert(a@.fields.len() != b@.fields.len());
        }
        return false;
    }
    let mut i: usize = 0;
    while i < a.fields.len()
        invariant
            a.fields@.len() == b.fields@.len(),
            i <= a.fields@.len(),
            fields_view(a.fields@).len() == a.fields@.len(),
            fields_view(b.fields@).len() == b.fields@.len(),
            forall|j: int|
                0 <= j < a.fields@.len() ==> #[trigger] fields_view(a.fields@)[j] == field_view(
                    a.fields@[j],
                ),
            forall|j: int|
                0 <= j < b.fields@.len() ==> #[trigger] fields_view(b.fields@)[j] == field_view(
                    b.fields@[j],
                ),
            forall|j: int|
                0 <= j < i ==> #[trigger] fields_view(a.fields@)[j] == fields_view(b.fields@)[j],
        decreases a.fields@.len() - i,
    {
        if !field_eq(&a.fields[i], &b.fields[i]) {
            proof {
                assert(fields_view(a.fields@)[i as int] != fields_view(b.fields@)[i as int]);
                assert(a@.fields != b@.fields);
            }
            return false;
        }
        i = i + 1;
    }
    proof {
        assert(fields_view(a.fields@) =~= fields_view(b.fields@));
    }
    true
}

/// Whether two fields have the same content.
fn field_eq(a: &Field, b: &Field) -> (r: bool)
    ensures
        r <==> a@ == b@,
    decreases a,
{
    let names = str_eq(a.name.as_str(), b.name.as_str());
    let docs = match (&a.doc, &b.doc) {
        (Some(da), Some(db)) => str_eq(da.as_str(), db.as_str()),
        (None, None) => true,
        _ => false,
    };
    names && docs && a.reversed == b.reversed && type_eq(&a.typ, &b.typ)
}

/// Whether two strings hold the same characters.
fn str_eq(a: &str, b: &str) -> (r: bool)
    ensures
        r <==> a@ == b@,
{
    let sa = String::from_str(a);
    let sb = String::from_str(b);
    sa == sb
}

} // verus!

verus! {

// ---------------------------------------------------------------------------
// Nesting depth, suffix renaming
// ---------------------------------------------------------------------------

/// The nesting depth of a type: how many composite layers it contains.
pub open spec fn type_depth(t: TypeV) -> nat
    decreases t,
{
    match t {
        TypeV::Record(r) => 1 + fields_depth(r.fields),
        TypeV::Union(r) => 1 + fields_depth(r.fields),
        TypeV::Array(a) => 1 + type_depth(a.typ),
        _ => 0,
    }
}

/// The largest nesting depth among a list of fields.
pub open spec fn fields_depth(fs: Seq<FieldV>) -> nat
    decreases fs,
{
    if fs.len() == 0 {
        0
    } else {
        let head = type_depth(fs[0].typ);
        let rest = fields_depth(fs.skip(1));
        if head > rest {
            head
        } else {
            rest
        }
    }
}

/// Splitting never deepens a type.
pub proof fn lemma_split_type_depth(t: TypeV)
    ensures
        split_type_v(t).0 is Some ==> type_depth(split_type_v(t).0->0) <= type_depth(t),
        split_type_v(t).1 is Some ==> type_depth(split_type_v(t).1->0) <= type_depth(t),
    decreases t,
{
    match t {
        TypeV::Record(r) => {
            lemma_split_fields_depth(r.fields);
        }
        TypeV::Union(r) => {
            lemma_split_fields_depth(r.fields);
        }
        _ => {}
    }
}

proof fn lemma_split_fields_depth(fs: Seq<FieldV>)
    ensures
        fields_depth(split_fields_v(fs).0) <= fields_depth(fs),
        fields_depth(split_fields_v(fs).1) <= fields_depth(fs),
    decreases fs,
{
    if fs.len() == 0 {
    } else {
        lemma_split_fields_depth(fs.skip(1));
        lemma_split_type_depth(fs[0].typ);
        lemma_fields_depth_concat(opt_seq(split_field_v(fs[0]).0), split_fields_v(fs.skip(1)).0);
        lemma_fields_depth_concat(opt_seq(split_field_v(fs[0]).1), split_fields_v(fs.skip(1)).1);
        lemma_opt_seq_depth(split_field_v(fs[0]).0, fs[0]);
        lemma_opt_seq_depth(split_field_v(fs[0]).1, fs[0]);
    }
}

proof fn lemma_opt_seq_depth(h: Option<FieldV>, f: FieldV)
    requires
        h is Some ==> type_depth(h->0.typ) <= type_depth(f.typ),
    ensures
        fields_depth(opt_seq(h)) <= type_depth(f.typ),
{
    match h {
        Some(x) => {
            assert(opt_seq(h) =~= seq![x]);
            assert(seq![x].skip(1) =~= Seq::<FieldV>::empty());
            assert(seq![x][0] == x);
            assert(fields_depth(Seq::<FieldV>::empty()) == 0);
            assert(fields_depth(seq![x]) == type_depth(x.typ));
        }
        None => {
            assert(opt_seq(h) =~= Seq::<FieldV>::empty());
            assert(fields_depth(opt_seq(h)) == 0);
        }
    }
}

proof fn lemma_fields_depth_concat(a: Seq<FieldV>, b: Seq<FieldV>)
    ensures
        fields_depth(a + b) <= if fields_depth(a) > fields_depth(b) {
            fields_depth(a)
        } else {
            fields_depth(b)
        },
    decreases a,
{
    if a.len() == 0 {
        assert(a + b =~= b);
    } else {
        lemma_fields_depth_concat(a.skip(1), b);
        assert((a + b).skip(1) =~= a.skip(1) + b);
        assert((a + b)[0] == a[0]);
    }
}

/// A type renamed with a suffix on every composite below it.
pub open spec fn append_suffix_type(t: TypeV, sfx: Seq<char>) -> TypeV
    decreases t,
{
    match t {
        TypeV::Record(r) => TypeV::Record(append_suffix_record(r, sfx)),
        TypeV::Union(r) => TypeV::Union(append_suffix_record(r, sfx)),
        TypeV::Array(a) => TypeV::Array(
            Box::new(
                ArrayV {
                    name: cat_spec(a.name, sfx),
                    typ: append_suffix_type(a.typ, sfx),
                    width: a.width,
                },
            ),
        ),
        _ => t,
    }
}

/// A record renamed with a suffix, its nested composites included.
pub open spec fn append_suffix_record(r: RecordV, sfx: Seq<char>) -> RecordV
    decreases r,
{
    RecordV { name: cat_spec(r.name, sfx), fields: append_suffix_fields(r.fields, sfx) }
}

/// Fields with the suffix applied to their composite types.
pub open spec fn append_suffix_fields(fs: Seq<FieldV>, sfx: Seq<char>) -> Seq<FieldV>
    decreases fs,
{
    if fs.len() == 0 {
        Seq::empty()
    } else {
        seq![
            FieldV {
                name: fs[0].name,
                typ: append_suffix_type(fs[0].typ, sfx),
                reversed: fs[0].reversed,
                doc: fs[0].doc,
            },
        ] + append_suffix_fields(fs.skip(1), sfx)
    }
}

/// Renaming with a suffix never changes the nesting depth.
pub proof fn lemma_append_suffix_depth(t: TypeV, sfx: Seq<char>)
    ensures
        type_depth(append_suffix_type(t, sfx)) == type_depth(t),
    decreases t,
{
    match t {
        TypeV::Record(r) => {
            lemma_append_suffix_fields_depth(r.fields, sfx);
            assert(append_suffix_type(t, sfx) == TypeV::Record(append_suffix_record(r, sfx)));
            assert(type_depth(TypeV::Record(append_suffix_record(r, sfx))) == 1 + fields_depth(
                append_suffix_fields(r.fields, sfx),
            ));
        }
        TypeV::Union(r) => {
            lemma_append_suffix_fields_depth(r.fields, sfx);
            assert(append_suffix_type(t, sfx) == TypeV::Union(append_suffix_record(r, sfx)));
            assert(type_depth(TypeV::Union(append_suffix_record(r, sfx))) == 1 + fields_depth(
                append_suffix_fields(r.fields, sfx),
            ));
        }
        TypeV::Array(a) => {
            lemma_append_suffix_depth(a.typ, sfx);
        }
        _ => {}
    }
}

proof fn lemma_append_suffix_fields_depth(fs: Seq<FieldV>, sfx: Seq<char>)
    ensures
        fields_depth(append_suffix_fields(fs, sfx)) == fields_depth(fs),
    decreases fs,
{
    if fs.len() > 0 {
        lemma_append_suffix_fields_depth(fs.skip(1), sfx);
        lemma_append_suffix_depth(fs[0].typ, sfx);
        assert(append_suffix_fields(fs, sfx).skip(1) =~= append_suffix_fields(fs.skip(1), sfx));
        assert(append_suffix_fields(fs, sfx)[0].typ == append_suffix_type(fs[0].typ, sfx));
    }
}

} // verus!

verus! {

// ---------------------------------------------------------------------------
// Type declarations
// ---------------------------------------------------------------------------

/// A documentation string with a comment prefix inserted after each newline.
pub open spec fn nl_expand(s: Seq<char>, ins: Seq<char>) -> Seq<char>
    decreases s.len(),
{
    if s.len() == 0 {
        Seq::empty()
    } else if s[0] == '\n' {
        seq!['\n'] + ins + nl_expand(s.skip(1), ins)
    } else {
        seq![s[0]] + nl_expand(s.skip(1), ins)
    }
}

/// Inserts a comment prefix after each newline of a documentation string.
fn expand_newlines(s: &str, ins: &str) -> (r: String)
    ensures
        r@ == nl_expand(s@, ins@),
{
    let len = s.unicode_len();
    let mut out = String::new();
    let mut i: usize = 0;
    proof {
        reveal_strlit("\n");
        assert(s@.skip(0) =~= s@);
        assert(out@ + nl_expand(s@, ins@) =~= nl_expand(s@, ins@));
    }
    while i < len
        invariant
            len == s@.len(),
            i <= len,
            "\n"@ =~= seq!['\n'],
            out@ + nl_expand(s@.skip(i as int), ins@) == nl_expand(s@, ins@),
        decreases len - i,
    {
        let ghost pre = out@;
        let c = s.get_char(i);
        let piece = s.substring_char(i, i + 1);
        out.append(piece);
        proof {
            assert(piece@ =~= seq![s@[i as int]]);
        }
        if c == '\n' {
            out.append(ins);
        }
        proof {
            let tail = s@.skip(i as int);
            assert(tail[0] == s@[i as int]);
            assert(tail.skip(1) =~= s@.skip(i + 1));
            if s@[i as int] == '\n' {
                assert(out@ =~= pre + (seq!['\n'] + ins@));
                assert(pre + (seq!['\n'] + ins@) + nl_expand(s@.skip(i + 1), ins@) =~= pre + ((
                seq!['\n'] + ins@) + nl_expand(s@.skip(i + 1), ins@)));
            } else {
                assert(out@ =~= pre + seq![s@[i as int]]);
                assert(pre + seq![s@[i as int]] + nl_expand(s@.skip(i + 1), ins@) =~= pre + (
                seq![s@[i as int]] + nl_expand(s@.skip(i + 1), ins@)));
            }
        }
        i = i + 1;
    }
    proof {
        assert(s@.skip(len as int) =~= Seq::<char>::empty());
        assert(nl_expand(Seq::empty(), ins@) =~= Seq::<char>::empty());
        assert(out@ + Seq::<char>::empty() =~= out@);
    }
    out
}

/// The lines of a record body: one optional comment block and one
/// declaration line per field.
pub open spec fn rec_lines_spec(fs: Seq<FieldV>) -> Seq<char>
    decreases fs,
{
    if fs.len() == 0 {
        Seq::empty()
    } else {
        let doc_part = match fs[0].doc {
            Some(d) => "  --"@ + nl_expand(d, "  --"@) + "\n"@,
            None => Seq::empty(),
        };
        doc_part + "  "@ + fs[0].name + " : "@ + type_id_spec(fs[0].typ) + ";\n"@ + rec_lines_spec(
            fs.skip(1),
        )
    }
}

/// The measure that bounds the mutual recursion of the declaration
/// renderers: the nesting depth of the value, then a tier.
pub open spec fn rec_depth(r: RecordV) -> nat {
    (1 + fields_depth(r.fields)) as nat
}

/// The declaration of a record, its nested composite types declared first.
pub open spec fn rec_decl_spec(r: RecordV) -> Option<Seq<char>>
    decreases rec_depth(r), 0int, 0int,
    via rec_decl_spec_decreases
{
    match rec_children_spec(r.fields) {
        None => None,
        Some(children) => {
            let this = "type "@ + cat_spec(r.name, "type"@) + " is record\n"@ + rec_lines_spec(
                r.fields,
            ) + "end record;"@;
            if children.len() > 0 {
                Some(children + this)
            } else {
                Some(this)
            }
        }
    }
}

#[via_fn]
proof fn rec_decl_spec_decreases(r: RecordV) {
}

/// The nested type declarations a record's fields require, in order.
pub open spec fn rec_children_spec(fs: Seq<FieldV>) -> Option<Seq<char>>
    decreases fields_depth(fs), 3int, fs.len(),
    via rec_children_spec_decreases
{
    if fs.len() == 0 {
        Some(Seq::empty())
    } else {
        let head = match fs[0].typ {
            TypeV::Record(nested) => {
                match record_decl_spec(nested, false) {
                    None => None,
                    Some(d) => Some(d + "\n\n"@),
                }
            }
            TypeV::Union(nested) => {
                match record_decl_spec(nested, false) {
                    None => None,
                    Some(d) => Some(d + "\n\n"@),
                }
            }
            TypeV::Array(nested) => {
                match array_decl_spec(*nested, false) {
                    None => None,
                    Some(d) => Some(d + "\n\n"@),
                }
            }
            _ => Some(Seq::empty()),
        };
        match head {
            None => None,
            Some(h) => {
                match rec_children_spec(fs.skip(1)) {
                    None => None,
                    Some(rest) => Some(h + rest),
                }
            }
        }
    }
}

#[via_fn]
proof fn rec_children_spec_decreases(fs: Seq<FieldV>) {
    if fs.len() > 0 {
        assert(fields_depth(fs.skip(1)) <= fields_depth(fs));
        assert(type_depth(fs[0].typ) <= fields_depth(fs));
    }
}

/// The split-aware declaration of a record: a mixed-direction record is
/// declared as its two directional halves, suffixed at the root.
pub open spec fn record_decl_spec(r: RecordV, is_root: bool) -> Option<Seq<char>>
    decreases rec_depth(r), 2int, 0int,
    via record_decl_spec_decreases
{
    if fields_have_reversed(r.fields) {
        let halves = split_record_v(r);
        match (halves.0, halves.1) {
            (Some(dn), Some(up)) => {
                let dn2 = append_suffix_record(dn, if is_root {
                    "dn"@
                } else {
                    ""@
                });
                let up2 = append_suffix_record(up, if is_root {
                    "up"@
                } else {
                    ""@
                });
                match (rec_decl_spec(dn2), rec_decl_spec(up2)) {
                    (Some(d), Some(u)) => Some(d + "\n\n"@ + u),
                    _ => None,
                }
            }
            _ => None,
        }
    } else {
        rec_decl_spec(r)
    }
}

#[via_fn]
proof fn record_decl_spec_decreases(r: RecordV, is_root: bool) {
    if fields_have_reversed(r.fields) {
        lemma_split_fields_depth(r.fields);
        let halves = split_record_v(r);
        if halves.0 is Some && halves.1 is Some {
            lemma_append_suffix_fields_depth(halves.0->0.fields, if is_root {
                "dn"@
            } else {
                ""@
            });
            lemma_append_suffix_fields_depth(halves.1->0.fields, if is_root {
                "up"@
            } else {
                ""@
            });
        }
    }
}

/// The raw declaration of an array: its nested composite declared first,
/// then the array over the element's identifier. An array of single bits or
/// of bare numbers cannot be declared.
pub open spec fn arr_decl_spec(a: ArrayV) -> Option<Seq<char>>
    decreases 1 + type_depth(a.typ), 0int, 0int,
    via arr_decl_spec_decreases
{
    let head = "type "@ + cat_spec(a.name, "type"@) + " is array ("@ + dec_str(0) + " to "@
        + dec_str((if a.width == 0 {
        0
    } else {
        a.width - 1
    }) as nat) + ") of "@;
    match a.typ {
        TypeV::Bit => None,
        TypeV::Natural => None,
        TypeV::Positive => None,
        TypeV::BitVec(_) => Some(head + primitive_decl_spec(a.typ) + ";"@),
        TypeV::Record(rec) => {
            match rec_decl_spec(rec) {
                None => None,
                Some(d) => Some(
                    d + "\n\n"@ + head + cat_spec(rec.name, "type"@) + ";"@,
                ),
            }
        }
        TypeV::Union(rec) => {
            match rec_decl_spec(rec) {
                None => None,
                Some(d) => Some(
                    d + "\n\n"@ + head + cat_spec(rec.name, "type"@) + ";"@,
                ),
            }
        }
        TypeV::Array(nested) => {
            match array_decl_spec(*nested, false) {
                None => None,
                Some(d) => Some(
                    d + "\n\n"@ + head + cat_spec(nested.name, "type"@) + ";"@,
                ),
            }
        }
    }
}

#[via_fn]
proof fn arr_decl_spec_decreases(a: ArrayV) {
}

/// The split-aware declaration of an array.
pub open spec fn array_decl_spec(a: ArrayV, is_root: bool) -> Option<Seq<char>>
    decreases 1 + type_depth(a.typ), 2int, 0int,
    via array_decl_spec_decreases
{
    if type_has_reversed(a.typ) {
        let halves = split_array_v(a);
        match (halves.0, halves.1) {
            (Some(dn), Some(up)) => {
                let dn2 = ArrayV {
                    name: cat_spec(dn.name, if is_root {
                        "dn"@
                    } else {
                        ""@
                    }),
                    typ: append_suffix_type(dn.typ, if is_root {
                        "dn"@
                    } else {
                        ""@
                    }),
                    width: dn.width,
                };
                let up2 = ArrayV {
                    name: cat_spec(up.name, if is_root {
                        "up"@
                    } else {
                        ""@
                    }),
                    typ: append_suffix_type(up.typ, if is_root {
                        "up"@
                    } else {
                        ""@
                    }),
                    width: up.width,
                };
                match (arr_decl_spec(dn2), arr_decl_spec(up2)) {
                    (Some(d), Some(u)) => Some(d + "\n\n"@ + u),
                    _ => None,
                }
            }
            _ => None,
        }
    } else {
        arr_decl_spec(a)
    }
}

#[via_fn]
proof fn array_decl_spec_decreases(a: ArrayV, is_root: bool) {
    if type_has_reversed(a.typ) {
        lemma_split_type_depth(a.typ);
        let halves = split_array_v(a);
        if halves.0 is Some && halves.1 is Some {
            lemma_append_suffix_depth(halves.0->0.typ, if is_root {
                "dn"@
            } else {
                ""@
            });
            lemma_append_suffix_depth(halves.1->0.typ, if is_root {
                "up"@
            } else {
                ""@
            });
        }
    }
}

/// The split-aware declaration of a whole type. Primitives are written out;
/// composites declare their nested types first.
pub open spec fn type_decl_spec(t: TypeV, is_root: bool) -> Option<Seq<char>> {
    match t {
        TypeV::Record(r) => record_decl_spec(r, is_root),
        TypeV::Union(r) => record_decl_spec(r, is_root),
        TypeV::Array(a) => array_decl_spec(*a, is_root),
        _ => Some(primitive_decl_spec(t)),
    }
}

} // verus!

verus! {

/// Every field's type is at most as deep as the list.
pub proof fn lemma_fields_depth_index(fs: Seq<FieldV>)
    ensures
        forall|i: int| 0 <= i < fs.len() ==> type_depth((#[trigger] fs[i]).typ) <= fields_depth(fs),
    decreases fs,
{
    if fs.len() > 0 {
        lemma_fields_depth_index(fs.skip(1));
        assert forall|i: int| 0 <= i < fs.len() implies type_depth((#[trigger] fs[i]).typ)
            <= fields_depth(fs) by {
            if i > 0 {
                assert(fs.skip(1)[i - 1] == fs[i]);
                assert(type_depth(fs.skip(1)[i - 1].typ) <= fields_depth(fs.skip(1)));
            }
        };
    }
}

/// Renames a type with a suffix, nested composites included.
fn type_append_suffix(t: &Type, suffix: &str) -> (r: Type)
    ensures
        r@ == append_suffix_type(t@, suffix@),
    decreases t,
{
    match t {
        Type::Record(rec) => Type::Record(rec.append_name_nested(suffix)),
        Type::Union(rec) => Type::Union(rec.append_name_nested(suffix)),
        Type::Array(a) => Type::Array(
            Box::new(
                Array {
                    identifier: cat(a.identifier.as_str(), suffix),
                    typ: type_append_suffix(&a.typ, suffix),
                    width: a.width,
                },
            ),
        ),
        Type::Bit => Type::Bit,
        Type::Natural => Type::Natural,
        Type::Positive => Type::Positive,
        Type::BitVec { width } => Type::BitVec { width: *width },
    }
}

impl Record {
    /// This record renamed with a suffix, nested composite types included.
    pub fn append_name_nested(&self, suffix: &str) -> (r: Record)
        ensures
            r@ == append_suffix_record(self@, suffix@),
        decreases self,
    {
        let ghost fv = self@.fields;
        let mut fields: Vec<Field> = Vec::new();
        let mut i: usize = 0;
        proof {
            lemma_fields_view(self.fields@);
        }
        while i < self.fields.len()
            invariant
                fv == self@.fields,
                self.fields@.len() == fv.len(),
                forall|j: int| 0 <= j < fv.len() ==> (#[trigger] self.fields@[j])@ == fv[j],
                i <= fv.len(),
                fields@.len() == i,
                forall|j: int|
                    0 <= j < i ==> (#[trigger] fields@[j])@ == (FieldV {
                        name: fv[j].name,
                        typ: append_suffix_type(fv[j].typ, suffix@),
                        reversed: fv[j].reversed,
                        doc: fv[j].doc,
                    }),
            decreases fv.len() - i,
        {
            let f = &self.fields[i];
            let nf = Field {
                name: f.name.clone(),
                typ: type_append_suffix(&f.typ, suffix),
                reversed: f.reversed,
                doc: match &f.doc {
                    Some(d) => Some(d.clone()),
                    None => None,
                },
            };
            fields.push(nf);
            i = i + 1;
        }
        let r = Record { identifier: cat(self.identifier.as_str(), suffix), fields };
        proof {
            lemma_fields_view(r.fields@);
            lemma_append_fields_index(fv, suffix@);
            assert(fields_view(r.fields@) =~= append_suffix_fields(fv, suffix@));
        }
        r
    }
}

/// Elementwise characterization of suffixed fields.
pub proof fn lemma_append_fields_index(fs: Seq<FieldV>, sfx: Seq<char>)
    ensures
        append_suffix_fields(fs, sfx).len() == fs.len(),
        forall|i: int|
            0 <= i < fs.len() ==> #[trigger] append_suffix_fields(fs, sfx)[i] == (FieldV {
                name: fs[i].name,
                typ: append_suffix_type(fs[i].typ, sfx),
                reversed: fs[i].reversed,
                doc: fs[i].doc,
            }),
    decreases fs,
{
    if fs.len() > 0 {
        lemma_append_fields_index(fs.skip(1), sfx);
        assert forall|i: int| 0 <= i < fs.len() implies #[trigger] append_suffix_fields(fs, sfx)[i]
            == (FieldV {
            name: fs[i].name,
            typ: append_suffix_type(fs[i].typ, sfx),
            reversed: fs[i].reversed,
            doc: fs[i].doc,
        }) by {
            if i > 0 {
                assert(append_suffix_fields(fs, sfx)[i] == append_suffix_fields(fs.skip(1), sfx)[i
                    - 1]);
                assert(fs.skip(1)[i - 1] == fs[i]);
            }
        };
    }
}

/// Generating the split-aware VHDL declaration of a type.
pub trait DeclareType {
    /// Generates the declaration; the root call suffixes split halves.
    fn declare(&self, is_root_type: bool) -> (r: Result<String, Error>);
}

/// Renders the raw record declaration, nested types first.
#[verifier::rlimit(100)]
fn rec_decl_exec(rec: &Record) -> (r: Result<String, Error>)
    ensures
        r is Ok <==> rec_decl_spec(rec@) is Some,
        r is Ok ==> r->Ok_0@ == rec_decl_spec(rec@)->0,
        r is Err ==> r->Err_0 is BackEndError,
    decreases rec_depth(rec@), 1int, 0int,
{
    let ghost fv = rec@.fields;
    let mut children = String::new();
    let mut lines = String::new();
    let mut i: usize = 0;
    proof {
        lemma_fields_view(self_fields(rec));
        assert(fv.skip(0) =~= fv);
        assert(children@ + Seq::<char>::empty() =~= Seq::<char>::empty());
        assert(lines@ + rec_lines_spec(fv) =~= rec_lines_spec(fv));
    }
    while i < rec.fields.len()
        invariant
            fv == rec@.fields,
            rec.fields@.len() == fv.len(),
            forall|j: int| 0 <= j < fv.len() ==> (#[trigger] rec.fields@[j])@ == fv[j],
            i <= fv.len(),
            rec_children_spec(fv) == (match rec_children_spec(fv.skip(i as int)) {
                None => None::<Seq<char>>,
                Some(rest) => Some(children@ + rest),
            }),
            lines@ + rec_lines_spec(fv.skip(i as int)) == rec_lines_spec(fv),
        decreases fv.len() - i,
    {
        proof {
            assert(fv.skip(i as int)[0] == fv[i as int]);
            assert(fv.skip(i as int).skip(1) =~= fv.skip(i + 1));
            lemma_fields_depth_index(fv);
        }
        let ghost children_pre = children@;
        let ghost lines_pre = lines@;
        let f = &rec.fields[i];
        match &f.typ {
            Type::Record(nested) => {
                let d = match nested.declare(false) {
                    Ok(d) => d,
                    Err(e) => {
                        return Err(e);
                    }
                };
                children.append(d.as_str());
                children.append("\n\n");
                proof {
                    assert(children@ =~= children_pre + (d@ + "\n\n"@));
                }
            }
            Type::Union(nested) => {
                let d = match nested.declare(false) {
                    Ok(d) => d,
                    Err(e) => {
                        return Err(e);
                    }
                };
                children.append(d.as_str());
                children.append("\n\n");
                proof {
                    assert(children@ =~= children_pre + (d@ + "\n\n"@));
                }
            }
            Type::Array(nested) => {
                let d = match nested.declare(false) {
                    Ok(d) => d,
                    Err(e) => {
                        return Err(e);
                    }
                };
                children.append(d.as_str());
                children.append("\n\n");
                proof {
                    assert(children@ =~= children_pre + (d@ + "\n\n"@));
                }
            }
            _ => {
                proof {
                    assert(children@ =~= children_pre + Seq::<char>::empty());
                }
            }
        }
        if let Some(d) = &f.doc {
            lines.append("  --");
            let expanded = expand_newlines(d.as_str(), "  --");
            lines.append(expanded.as_str());
            lines.append("\n");
        }
        lines.append("  ");
        lines.append(f.name.as_str());
        lines.append(" : ");
        let tid = type_identifier(&f.typ);
        lines.append(tid.as_str());
        lines.append(";\n");
        proof {
            let fj = fv[i as int];
            let doc_part = match fj.doc {
                Some(dd) => "  --"@ + nl_expand(dd, "  --"@) + "\n"@,
                None => Seq::<char>::empty(),
            };
            assert(lines@ =~= lines_pre + (doc_part + "  "@ + fj.name + " : "@ + type_id_spec(
                fj.typ,
            ) + ";\n"@));
            assert(lines_pre + (doc_part + "  "@ + fj.name + " : "@ + type_id_spec(fj.typ)
                + ";\n"@) + rec_lines_spec(fv.skip(i + 1)) =~= lines_pre + ((doc_part + "  "@
                + fj.name + " : "@ + type_id_spec(fj.typ) + ";\n"@) + rec_lines_spec(
                fv.skip(i + 1),
            )));
        }
        i = i + 1;
    }
    proof {
        assert(fv.skip(fv.len() as int) =~= Seq::<FieldV>::empty());
        assert(rec_children_spec(Seq::<FieldV>::empty()) == Some(Seq::<char>::empty()));
        assert(rec_lines_spec(Seq::<FieldV>::empty()) =~= Seq::<char>::empty());
        assert(children@ + Seq::<char>::empty() =~= children@);
        assert(lines@ + Seq::<char>::empty() =~= lines@);
    }
    let mut this = String::from_str("type ");
    let tid = cat(rec.identifier.as_str(), "type");
    this.append(tid.as_str());
    this.append(" is record\n");
    this.append(lines.as_str());
    this.append("end record;");
    if children.unicode_len() > 0 {
        let mut out = children;
        out.append(this.as_str());
        Ok(out)
    } else {
        proof {
            assert(children@ =~= Seq::<char>::empty());
            assert(Seq::<char>::empty() + this@ =~= this@);
        }
        Ok(this)
    }
}

/// The field views of a record, for specification purposes.
pub open spec fn self_fields(rec: &Record) -> Seq<Field> {
    rec.fields@
}

impl DeclareType for Record {
    /// Declares the record; a mixed-direction record is declared as its two
    /// directional halves.
    fn declare(&self, is_root_type: bool) -> (r: Result<String, Error>)
        ensures
            r is Ok <==> record_decl_spec(self@, is_root_type) is Some,
            r is Ok ==> r->Ok_0@ == record_decl_spec(self@, is_root_type)->0,
            r is Err ==> r->Err_0 is BackEndError,
        decreases rec_depth(self@), 3int, 0int,
    {
        if self.has_reversed() {
            let halves = self.split();
            proof {
                lemma_split_fields_depth(self@.fields);
            }
            match halves {
                (Some(dn), Some(up)) => {
                    let sfx_dn = if is_root_type {
                        "dn"
                    } else {
                        ""
                    };
                    let sfx_up = if is_root_type {
                        "up"
                    } else {
                        ""
                    };
                    let dn2 = dn.append_name_nested(sfx_dn);
                    let up2 = up.append_name_nested(sfx_up);
                    proof {
                        lemma_append_suffix_fields_depth(dn@.fields, sfx_dn@);
                        lemma_append_suffix_fields_depth(up@.fields, sfx_up@);
                        reveal_strlit("dn");
                        reveal_strlit("up");
                        reveal_strlit("");
                    }
                    let d = match rec_decl_exec(&dn2) {
                        Ok(d) => d,
                        Err(e) => {
                            return Err(e);
                        }
                    };
                    let u = match rec_decl_exec(&up2) {
                        Ok(u) => u,
                        Err(e) => {
                            return Err(e);
                        }
                    };
                    let mut out = d;
                    out.append("\n\n");
                    out.append(u.as_str());
                    Ok(out)
                }
                _ => Err(
                    Error::BackEndError(
                        String::from_str("a mixed-direction record lost one of its halves"),
                    ),
                ),
            }
        } else {
            rec_decl_exec(self)
        }
    }
}

/// Renders the raw array declaration, its nested composite first.
fn arr_decl_exec(a: &Array) -> (r: Result<String, Error>)
    ensures
        r is Ok <==> arr_decl_spec(a@) is Some,
        r is Ok ==> r->Ok_0@ == arr_decl_spec(a@)->0,
        r is Err ==> r->Err_0 is BackEndError,
    decreases 1 + type_depth(a@.typ), 1int, 0int,
{
    let mut head = String::from_str("type ");
    let tid = cat(a.identifier.as_str(), "type");
    head.append(tid.as_str());
    head.append(" is array (");
    head.append(u32_string(0).as_str());
    head.append(" to ");
    head.append(u32_string(if a.width == 0 {
        0
    } else {
        a.width - 1
    }).as_str());
    head.append(") of ");
    proof {
        assert(head@ =~= "type "@ + cat_spec(a@.name, "type"@) + " is array ("@ + dec_str(0)
            + " to "@ + dec_str((if a@.width == 0 {
            0
        } else {
            a@.width - 1
        }) as nat) + ") of "@);
    }
    match &a.typ {
        Type::Bit => Err(Error::BackEndError(String::from_str("a lone bit cannot form an array"))),
        Type::Natural => Err(
            Error::BackEndError(String::from_str("a bare number cannot form an array")),
        ),
        Type::Positive => Err(
            Error::BackEndError(String::from_str("a bare number cannot form an array")),
        ),
        Type::BitVec { width } => {
            let mut out = head;
            let prim = type_identifier(&a.typ);
            out.append(prim.as_str());
            out.append(";");
            Ok(out)
        }
        Type::Record(rec) => {
            let d = match rec_decl_exec(rec) {
                Ok(d) => d,
                Err(e) => {
                    return Err(e);
                }
            };
            let mut out = d;
            out.append("\n\n");
            out.append(head.as_str());
            let rid = cat(rec.identifier.as_str(), "type");
            out.append(rid.as_str());
            out.append(";");
            Ok(out)
        }
        Type::Union(rec) => {
            let d = match rec_decl_exec(rec) {
                Ok(d) => d,
                Err(e) => {
                    return Err(e);
                }
            };
            let mut out = d;
            out.append("\n\n");
            out.append(head.as_str());
            let rid = cat(rec.identifier.as_str(), "type");
            out.append(rid.as_str());
            out.append(";");
            Ok(out)
        }
        Type::Array(nested) => {
            let d = match nested.declare(false) {
                Ok(d) => d,
                Err(e) => {
                    return Err(e);
                }
            };
            let mut out = d;
            out.append("\n\n");
            out.append(head.as_str());
            let rid = cat(nested.identifier.as_str(), "type");
            out.append(rid.as_str());
            out.append(";");
            Ok(out)
        }
    }
}

impl DeclareType for Array {
    /// Declares the array; a mixed-direction element is declared as its two
    /// directional halves.
    fn declare(&self, is_root_type: bool) -> (r: Result<String, Error>)
        ensures
            r is Ok <==> array_decl_spec(self@, is_root_type) is Some,
            r is Ok ==> r->Ok_0@ == array_decl_spec(self@, is_root_type)->0,
            r is Err ==> r->Err_0 is BackEndError,
        decreases 1 + type_depth(self@.typ), 3int, 0int,
    {
        if self.typ.has_reversed() {
            let halves = self.split();
            proof {
                lemma_split_type_depth(self@.typ);
            }
            match halves {
                (Some(dn), Some(up)) => {
                    let sfx_dn = if is_root_type {
                        "dn"
                    } else {
                        ""
                    };
                    let sfx_up = if is_root_type {
                        "up"
                    } else {
                        ""
                    };
                    let dn2 = Array {
                        identifier: cat(dn.identifier.as_str(), sfx_dn),
                        typ: type_append_suffix(&dn.typ, sfx_dn),
                        width: dn.width,
                    };
                    let up2 = Array {
                        identifier: cat(up.identifier.as_str(), sfx_up),
                        typ: type_append_suffix(&up.typ, sfx_up),
                        width: up.width,
                    };
                    proof {
                        lemma_append_suffix_depth(dn@.typ, sfx_dn@);
                        lemma_append_suffix_depth(up@.typ, sfx_up@);
                    }
                    let d = match arr_decl_exec(&dn2) {
                        Ok(d) => d,
                        Err(e) => {
                            return Err(e);
                        }
                    };
                    let u = match arr_decl_exec(&up2) {
                        Ok(u) => u,
                        Err(e) => {
                            return Err(e);
                        }
                    };
                    let mut out = d;
                    out.append("\n\n");
                    out.append(u.as_str());
                    Ok(out)
                }
                _ => Err(
                    Error::BackEndError(
                        String::from_str("a mixed-direction array lost one of its halves"),
                    ),
                ),
            }
        } else {
            arr_decl_exec(self)
        }
    }
}

impl DeclareType for Type {
    /// Declares the type: primitives are written out, composites are
    /// declared with their nested types.
    fn declare(&self, is_root_type: bool) -> (r: Result<String, Error>)
        ensures
            r is Ok <==> type_decl_spec(self@, is_root_type) is Some,
            r is Ok ==> r->Ok_0@ == type_decl_spec(self@, is_root_type)->0,
            r is Err ==> r->Err_0 is BackEndError,
        decreases type_depth(self@), 4int, 0int,
    {
        match self {
            Type::Record(rec) => rec.declare(is_root_type),
            Type::Union(rec) => rec.declare(is_root_type),
            Type::Array(a) => a.declare(is_root_type),
            _ => Ok(type_identifier(self)),
        }
    }
}

} // verus!

verus! {

// ---------------------------------------------------------------------------
// Ports, components, packages
// ---------------------------------------------------------------------------

/// The two directional halves of a port: the forward half keeps the mode
/// and gains a downstream suffix, the reverse half flips the mode and gains
/// an upstream suffix; split composite halves are suffixed throughout.
pub open spec fn split_port_v(p: PortV) -> (Option<PortV>, Option<PortV>) {
    let halves = split_type_v(p.typ);
    (
        match halves.0 {
            Some(t) => Some(
                PortV {
                    name: cat_spec(p.name, "dn"@),
                    mode: p.mode,
                    typ: match t {
                        TypeV::Record(r) => TypeV::Record(append_suffix_record(r, "dn"@)),
                        TypeV::Union(r) => TypeV::Union(append_suffix_record(r, "dn"@)),
                        _ => t,
                    },
                    doc: None,
                },
            ),
            None => None,
        },
        match halves.1 {
            Some(t) => Some(
                PortV {
                    name: cat_spec(p.name, "up"@),
                    mode: p.mode.reversed_spec(),
                    typ: match t {
                        TypeV::Record(r) => TypeV::Record(append_suffix_record(r, "up"@)),
                        TypeV::Union(r) => TypeV::Union(append_suffix_record(r, "up"@)),
                        _ => t,
                    },
                    doc: None,
                },
            ),
            None => None,
        },
    )
}

impl Split for Port {
    /// Splits a mixed-direction port into suffixed directional ports.
    fn split(&self) -> (r: (Option<Port>, Option<Port>))
        ensures
            r.0 is Some <==> split_port_v(self@).0 is Some,
            r.1 is Some <==> split_port_v(self@).1 is Some,
            r.0 is Some ==> r.0->0@ == split_port_v(self@).0->0,
            r.1 is Some ==> r.1->0@ == split_port_v(self@).1->0,
    {
        let halves = self.typ.split();
        let dn = match halves.0 {
            Some(t) => {
                let t2 = match t {
                    Type::Record(r) => Type::Record(r.append_name_nested("dn")),
                    Type::Union(r) => Type::Union(r.append_name_nested("dn")),
                    other => other,
                };
                Some(Port::new(cat(self.identifier.as_str(), "dn").as_str(), self.mode, t2))
            }
            None => None,
        };
        let up = match halves.1 {
            Some(t) => {
                let t2 = match t {
                    Type::Record(r) => Type::Record(r.append_name_nested("up")),
                    Type::Union(r) => Type::Union(r.append_name_nested("up")),
                    other => other,
                };
                Some(
                    Port::new(
                        cat(self.identifier.as_str(), "up").as_str(),
                        self.mode.reversed(),
                        t2,
                    ),
                )
            }
            None => None,
        };
        (dn, up)
    }
}

/// Generating a whole VHDL declaration.
pub trait Declare {
    /// Generates the declaration.
    fn declare(&self) -> (r: Result<String, Error>);
}

/// The declaration of a port: its optional comment, name, mode and type.
pub open spec fn port_decl_spec(p: PortV) -> Seq<char> {
    let doc_part = match p.doc {
        Some(d) => "--"@ + nl_expand(d, "    --"@) + "\n    "@,
        None => Seq::<char>::empty(),
    };
    doc_part + p.name + " : "@ + mode_id_spec(p.mode) + " "@ + type_id_spec(p.typ)
}

impl Declare for Port {
    /// Declares the port.
    fn declare(&self) -> (r: Result<String, Error>)
        ensures
            r is Ok,
            r is Ok ==> r->Ok_0@ == port_decl_spec(self@),
    {
        let mut out = String::new();
        if let Some(d) = &self.doc {
            out.append("--");
            let expanded = expand_newlines(d.as_str(), "    --");
            out.append(expanded.as_str());
            out.append("\n    ");
        }
        out.append(self.identifier.as_str());
        out.append(" : ");
        match self.mode {
            Mode::In => out.append("in"),
            Mode::Out => out.append("out"),
        }
        out.append(" ");
        let tid = type_identifier(&self.typ);
        out.append(tid.as_str());
        proof {
            assert(out@ =~= port_decl_spec(self@));
        }
        Ok(out)
    }
}

/// The body of a port list from index `i` on: each port on its own line,
/// mixed-direction ports split in two, lines separated by semicolons.
pub open spec fn ports_body_spec(ps: Seq<PortV>, i: int) -> Option<Seq<char>>
    decreases ps.len() - i,
{
    if i < 0 || i >= ps.len() {
        Some(Seq::empty())
    } else {
        let line = if type_has_reversed(ps[i].typ) {
            match split_port_v(ps[i]) {
                (Some(dn), Some(up)) => Some(
                    port_decl_spec(dn) + ";\n"@ + "    "@ + port_decl_spec(up),
                ),
                _ => None,
            }
        } else {
            Some(port_decl_spec(ps[i]))
        };
        match line {
            None => None,
            Some(l) => {
                let sep = if i + 1 < ps.len() {
                    ";\n"@
                } else {
                    "\n"@
                };
                match ports_body_spec(ps, i + 1) {
                    None => None,
                    Some(rest) => Some("    "@ + l + sep + rest),
                }
            }
        }
    }
}

/// The declaration of a port list: nothing when empty, else the lines
/// wrapped in a port clause.
pub open spec fn ports_decl_spec(ps: Seq<PortV>) -> Option<Seq<char>> {
    if ps.len() == 0 {
        Some(Seq::empty())
    } else {
        match ports_body_spec(ps, 0) {
            None => None,
            Some(body) => Some("  port(\n"@ + body + "  );\n"@),
        }
    }
}

/// Declares a list of ports as a port clause.
#[verifier::rlimit(100)]
pub fn declare_ports(ports: &Vec<Port>) -> (r: Result<String, Error>)
    ensures
        r is Ok <==> ports_decl_spec(ports@.map_values(|p: Port| p@)) is Some,
        r is Ok ==> r->Ok_0@ == ports_decl_spec(ports@.map_values(|p: Port| p@))->0,
        r is Err ==> r->Err_0 is BackEndError,
{
    let ghost pv = ports@.map_values(|p: Port| p@);
    if ports.len() == 0 {
        return Ok(String::new());
    }
    let mut body = String::new();
    let mut i: usize = 0;
    proof {
        assert(body@ + x_or_empty(ports_body_spec(pv, 0)) == x_or_empty(ports_body_spec(pv, 0)))
            by {
            assert(body@ + x_or_empty(ports_body_spec(pv, 0)) =~= x_or_empty(
                ports_body_spec(pv, 0),
            ));
        };
    }
    while i < ports.len()
        invariant
            pv == ports@.map_values(|p: Port| p@),
            ports@.len() == pv.len(),
            pv.len() > 0,
            i <= pv.len(),
            ports_body_spec(pv, 0) == (match ports_body_spec(pv, i as int) {
                None => None::<Seq<char>>,
                Some(rest) => Some(body@ + rest),
            }),
        decreases pv.len() - i,
    {
        let ghost pre = body@;
        body.append("    ");
        let p = &ports[i];
        proof {
            assert(pv[i as int] == p@);
        }
        if p.has_reversed() {
            let halves = p.split();
            match halves {
                (Some(dn), Some(up)) => {
                    let d = match dn.declare() {
                        Ok(d) => d,
                        Err(e) => {
                            return Err(e);
                        }
                    };
                    body.append(d.as_str());
                    body.append(";\n");
                    body.append("    ");
                    let u = match up.declare() {
                        Ok(u) => u,
                        Err(e) => {
                            return Err(e);
                        }
                    };
                    body.append(u.as_str());
                }
                _ => {
                    return Err(
                        Error::BackEndError(
                            String::from_str("a mixed-direction port lost one of its halves"),
                        ),
                    );
                }
            }
        } else {
            let d = match p.declare() {
                Ok(d) => d,
                Err(e) => {
                    return Err(e);
                }
            };
            body.append(d.as_str());
        }
        if i + 1 < ports.len() {
            body.append(";\n");
        } else {
            body.append("\n");
        }
        proof {
            let line = if type_has_reversed(pv[i as int].typ) {
                port_decl_spec(split_port_v(pv[i as int]).0->0) + ";\n"@ + "    "@ + port_decl_spec(
                    split_port_v(pv[i as int]).1->0,
                )
            } else {
                port_decl_spec(pv[i as int])
            };
            let sep = if i + 1 < pv.len() {
                ";\n"@
            } else {
                "\n"@
            };
            assert(body@ =~= pre + ("    "@ + line + sep));
            assert forall|rest: Seq<char>| true implies pre + ("    "@ + line + sep) + rest == pre
                + (("    "@ + line + sep) + rest) by {
                assert(pre + ("    "@ + line + sep) + rest =~= pre + (("    "@ + line + sep)
                    + rest));
            };
        }
        i = i + 1;
    }
    proof {
        assert(ports_body_spec(pv, pv.len() as int) == Some(Seq::<char>::empty()));
        assert(body@ + Seq::<char>::empty() =~= body@);
    }
    let mut out = String::from_str("  port(\n");
    out.append(body.as_str());
    out.append("  );\n");
    Ok(out)
}

/// An optional text, read as empty when absent.
pub open spec fn x_or_empty(o: Option<Seq<char>>) -> Seq<char> {
    match o {
        Some(s) => s,
        None => Seq::empty(),
    }
}

/// The declaration of a component: its optional comment, name, port clause
/// and closing line.
pub open spec fn component_decl_spec(c: ComponentV) -> Option<Seq<char>> {
    let doc_part = match c.doc {
        Some(d) => "--"@ + nl_expand(d, "--"@) + "\n"@,
        None => Seq::<char>::empty(),
    };
    match ports_decl_spec(c.ports) {
        None => None,
        Some(ports) => Some(
            doc_part + "component "@ + c.name + "\n"@ + ports + "end component;"@,
        ),
    }
}

impl Declare for Component {
    /// Declares the component.
    fn declare(&self) -> (r: Result<String, Error>)
        ensures
            r is Ok <==> component_decl_spec(self@) is Some,
            r is Ok ==> r->Ok_0@ == component_decl_spec(self@)->0,
            r is Err ==> r->Err_0 is BackEndError,
    {
        let mut out = String::new();
        if let Some(d) = &self.doc {
            out.append("--");
            let expanded = expand_newlines(d.as_str(), "--");
            out.append(expanded.as_str());
            out.append("\n");
        }
        out.append("component ");
        out.append(self.identifier.as_str());
        out.append("\n");
        let ports = match declare_ports(&self.ports) {
            Ok(p) => p,
            Err(e) => {
                return Err(e);
            }
        };
        out.append(ports.as_str());
        out.append("end component;");
        proof {
            assert(out@ =~= component_decl_spec(self@)->0);
        }
        Ok(out)
    }
}

} // verus!

verus! {

// ---------------------------------------------------------------------------
// Nested types and usings
// ---------------------------------------------------------------------------

/// All types nested below a type, the type itself first.
pub open spec fn nested_types_spec(t: TypeV) -> Seq<TypeV>
    decreases t,
{
    match t {
        TypeV::Record(r) => seq![t] + nested_types_fields(r.fields),
        TypeV::Union(r) => seq![t] + nested_types_fields(r.fields),
        TypeV::Array(a) => seq![t] + nested_types_spec(a.typ),
        _ => Seq::empty(),
    }
}

/// The nested types of every field, in order.
pub open spec fn nested_types_fields(fs: Seq<FieldV>) -> Seq<TypeV>
    decreases fs,
{
    if fs.len() == 0 {
        Seq::empty()
    } else {
        nested_types_spec(fs[0].typ) + nested_types_fields(fs.skip(1))
    }
}

/// The composite types a component's ports use, in port order.
pub open spec fn comp_types_spec(ps: Seq<PortV>, i: int) -> Seq<TypeV>
    decreases ps.len() - i,
{
    if i < 0 || i >= ps.len() {
        Seq::empty()
    } else {
        let head: Seq<TypeV> = match ps[i].typ {
            TypeV::Record(_) => seq![ps[i].typ],
            TypeV::Union(_) => seq![ps[i].typ],
            TypeV::Array(_) => seq![ps[i].typ],
            _ => Seq::empty(),
        };
        head + comp_types_spec(ps, i + 1)
    }
}

/// Listing the nested types a value uses.
pub trait Analyze {
    /// Lists all nested types used.
    fn list_nested_types(&self) -> (r: Vec<Type>);
}

impl Analyze for Type {
    /// Lists this type and every composite nested below it.
    fn list_nested_types(&self) -> (r: Vec<Type>)
        ensures
            r@.map_values(|t: Type| t@) == nested_types_spec(self@),
    {
        let mut out: Vec<Type> = Vec::new();
        collect_nested(self, &mut out);
        proof {
            assert forall|i: int| 0 <= i < out@.len() implies (#[trigger] out@[i])@
                == nested_types_spec(self@)[i] by {
                assert(out@[0 + i]@ == nested_types_spec(self@)[i]);
            };
            assert(out@.map_values(|t: Type| t@) =~= nested_types_spec(self@));
        }
        out
    }
}

/// Collects a type's nested composites below a prefix of results.
fn collect_nested(t: &Type, out: &mut Vec<Type>)
    ensures
        final(out)@.len() == old(out)@.len() + nested_types_spec(t@).len(),
        forall|j: int|
            0 <= j < old(out)@.len() ==> (#[trigger] final(out)@[j])@ == old(out)@[j]@,
        forall|j: int|
            0 <= j < nested_types_spec(t@).len() ==> (#[trigger] final(out)@[old(out)@.len()
                + j])@ == nested_types_spec(t@)[j],
    decreases t,
{
    match t {
        Type::Record(rec) => {
            let ghost pre = out@;
            out.push(t.clone());
            let ghost mid = out@;
            collect_nested_fields(&rec.fields, out);
            proof {
                let whole = nested_types_spec(t@);
                let rest = nested_types_fields(fields_view(rec.fields@));
                assert(t@ == TypeV::Record(record_view(*rec)));
                assert(record_view(*rec).fields == fields_view(rec.fields@));
                assert(whole =~= seq![t@] + rest);
                assert forall|j: int| 0 <= j < whole.len() implies (#[trigger] out@[pre.len()
                    + j])@ == whole[j] by {
                    if j == 0 {
                        assert(out@[pre.len() as int]@ == mid[pre.len() as int]@);
                    } else {
                        assert(out@[mid.len() + (j - 1)]@ == rest[j - 1]);
                        assert(whole[j] == rest[j - 1]);
                    }
                };
            }
        }
        Type::Union(rec) => {
            let ghost pre = out@;
            out.push(t.clone());
            let ghost mid = out@;
            collect_nested_fields(&rec.fields, out);
            proof {
                let whole = nested_types_spec(t@);
                let rest = nested_types_fields(fields_view(rec.fields@));
                assert(t@ == TypeV::Union(record_view(*rec)));
                assert(record_view(*rec).fields == fields_view(rec.fields@));
                assert(whole =~= seq![t@] + rest);
                assert forall|j: int| 0 <= j < whole.len() implies (#[trigger] out@[pre.len()
                    + j])@ == whole[j] by {
                    if j == 0 {
                        assert(out@[pre.len() as int]@ == mid[pre.len() as int]@);
                    } else {
                        assert(out@[mid.len() + (j - 1)]@ == rest[j - 1]);
                        assert(whole[j] == rest[j - 1]);
                    }
                };
            }
        }
        Type::Array(a) => {
            let ghost pre = out@;
            out.push(t.clone());
            let ghost mid = out@;
            collect_nested(&a.typ, out);
            proof {
                let whole = nested_types_spec(t@);
                let rest = nested_types_spec(a.typ@);
                assert(whole =~= seq![t@] + rest);
                assert forall|j: int| 0 <= j < whole.len() implies (#[trigger] out@[pre.len()
                    + j])@ == whole[j] by {
                    if j == 0 {
                        assert(out@[pre.len() as int]@ == mid[pre.len() as int]@);
                    } else {
                        assert(out@[mid.len() + (j - 1)]@ == rest[j - 1]);
                        assert(whole[j] == rest[j - 1]);
                    }
                };
            }
        }
        _ => {}
    }
}

fn collect_nested_fields(fs: &Vec<Field>, out: &mut Vec<Type>)
    ensures
        final(out)@.len() == old(out)@.len() + nested_types_fields(fields_view(fs@)).len(),
        forall|j: int|
            0 <= j < old(out)@.len() ==> (#[trigger] final(out)@[j])@ == old(out)@[j]@,
        forall|j: int|
            0 <= j < nested_types_fields(fields_view(fs@)).len() ==> (#[trigger] final(out)@[old(
                out,
            )@.len() + j])@ == nested_types_fields(fields_view(fs@))[j],
    decreases fs,
{
    let ghost fv = fields_view(fs@);
    proof {
        lemma_fields_view(fs@);
    }
    let mut i: usize = 0;
    while i < fs.len()
        invariant
            fv == fields_view(fs@),
            fs@.len() == fv.len(),
            forall|j: int| 0 <= j < fv.len() ==> (#[trigger] fs@[j])@ == fv[j],
            i <= fv.len(),
            out@.len() == old(out)@.len() + nested_fields_upto(fv, i as int).len(),
            forall|j: int|
                0 <= j < old(out)@.len() ==> (#[trigger] out@[j])@ == old(out)@[j]@,
            forall|j: int|
                0 <= j < nested_fields_upto(fv, i as int).len() ==> (#[trigger] out@[old(out)@.len()
                    + j])@ == nested_fields_upto(fv, i as int)[j],
        decreases fv.len() - i,
    {
        let ghost pre = out@;
        proof {
            assert(fs@[i as int]@.typ == fv[i as int].typ);
        }
        collect_nested(&fs[i].typ, out);
        proof {
            let upto_i = nested_fields_upto(fv, i as int);
            let upto_i1 = nested_fields_upto(fv, (i + 1) as int);
            let base = old(out)@.len() as int;
            let rest = nested_types_spec(fv[i as int].typ);
            assert(upto_i1 == upto_i + rest);
            assert forall|j: int| 0 <= j < upto_i1.len() implies (#[trigger] out@[base + j])@
                == upto_i1[j] by {
                if j < upto_i.len() {
                    assert(out@[base + j]@ == pre[base + j]@);
                    assert(upto_i1[j] == upto_i[j]);
                } else {
                    let j2 = j - upto_i.len();
                    assert(out@[pre.len() + j2]@ == rest[j2]);
                    assert(upto_i1[j] == rest[j2]);
                }
            };
        }
        i = i + 1;
    }
    proof {
        lemma_nested_fields_upto_full(fv);
    }
}

/// The nested types of the first `i` fields.
pub open spec fn nested_fields_upto(fs: Seq<FieldV>, i: int) -> Seq<TypeV>
    decreases i,
{
    if i <= 0 {
        Seq::empty()
    } else {
        nested_fields_upto(fs, i - 1) + nested_types_spec(fs[i - 1].typ)
    }
}

proof fn lemma_nested_fields_from(fs: Seq<FieldV>, i: int)
    requires
        0 <= i <= fs.len(),
    ensures
        nested_fields_upto(fs, i) + nested_fields_rest(fs, i) == nested_fields_rest(fs, 0),
    decreases i,
{
    if i == 0 {
        assert(nested_fields_upto(fs, 0) + nested_fields_rest(fs, 0) =~= nested_fields_rest(fs, 0));
    } else {
        lemma_nested_fields_from(fs, i - 1);
        assert((nested_fields_upto(fs, i - 1) + nested_types_spec(fs[i - 1].typ))
            + nested_fields_rest(fs, i) =~= nested_fields_upto(fs, i - 1) + (nested_types_spec(
            fs[i - 1].typ,
        ) + nested_fields_rest(fs, i)));
    }
}

/// The nested types of the fields from index `i` on.
pub open spec fn nested_fields_rest(fs: Seq<FieldV>, i: int) -> Seq<TypeV>
    decreases fs.len() - i,
{
    if i < 0 || i >= fs.len() {
        Seq::empty()
    } else {
        nested_types_spec(fs[i].typ) + nested_fields_rest(fs, i + 1)
    }
}

proof fn lemma_nested_fields_rest_shift(fs: Seq<FieldV>, i: int)
    requires
        1 <= i <= fs.len(),
    ensures
        nested_fields_rest(fs, i) == nested_fields_rest(fs.skip(1), i - 1),
    decreases fs.len() - i,
{
    if i < fs.len() {
        lemma_nested_fields_rest_shift(fs, i + 1);
        assert(fs.skip(1)[i - 1] == fs[i]);
    } else {
        assert(nested_fields_rest(fs, i) =~= nested_fields_rest(fs.skip(1), i - 1));
    }
}

proof fn lemma_nested_fields_as_rest(fs: Seq<FieldV>)
    ensures
        nested_types_fields(fs) == nested_fields_rest(fs, 0),
    decreases fs,
{
    if fs.len() > 0 {
        lemma_nested_fields_as_rest(fs.skip(1));
        lemma_nested_fields_rest_shift(fs, 1);
    } else {
        assert(nested_types_fields(fs) =~= nested_fields_rest(fs, 0));
    }
}

proof fn lemma_nested_fields_upto_full(fs: Seq<FieldV>)
    ensures
        nested_fields_upto(fs, fs.len() as int) == nested_types_fields(fs),
{
    lemma_nested_fields_from(fs, fs.len() as int);
    lemma_nested_fields_as_rest(fs);
    assert(nested_fields_rest(fs, fs.len() as int) =~= Seq::<TypeV>::empty());
    assert(nested_fields_upto(fs, fs.len() as int) + Seq::<TypeV>::empty() =~= nested_fields_upto(
        fs,
        fs.len() as int,
    ));
}

impl Analyze for Component {
    /// Lists the composite types this component's ports use, in port order.
    fn list_nested_types(&self) -> (r: Vec<Type>)
        ensures
            r@.map_values(|t: Type| t@) == comp_types_spec(self@.ports, 0),
    {
        let ghost pv = self@.ports;
        let mut out: Vec<Type> = Vec::new();
        let mut i: usize = 0;
        while i < self.ports.len()
            invariant
                pv == self@.ports,
                self.ports@.len() == pv.len(),
                forall|j: int| 0 <= j < pv.len() ==> (#[trigger] self.ports@[j])@ == pv[j],
                i <= pv.len(),
                comp_types_spec(pv, 0) == (out@.map_values(|t: Type| t@) + comp_types_spec(
                    pv,
                    i as int,
                )),
            decreases pv.len() - i,
        {
            let ghost pre = out@;
            let p = &self.ports[i];
            match &p.typ {
                Type::Record(_) => out.push(p.typ.clone()),
                Type::Union(_) => out.push(p.typ.clone()),
                Type::Array(_) => out.push(p.typ.clone()),
                _ => {}
            }
            proof {
                let head: Seq<TypeV> = match pv[i as int].typ {
                    TypeV::Record(_) => seq![pv[i as int].typ],
                    TypeV::Union(_) => seq![pv[i as int].typ],
                    TypeV::Array(_) => seq![pv[i as int].typ],
                    _ => Seq::empty(),
                };
                assert(out@.map_values(|t: Type| t@) =~= pre.map_values(|t: Type| t@) + head);
                assert(pre.map_values(|t: Type| t@) + head + comp_types_spec(pv, i + 1)
                    =~= pre.map_values(|t: Type| t@) + (head + comp_types_spec(pv, i + 1)));
            }
            i = i + 1;
        }
        proof {
            assert(comp_types_spec(pv, pv.len() as int) =~= Seq::<TypeV>::empty());
            assert(out@.map_values(|t: Type| t@) + Seq::<TypeV>::empty() =~= out@.map_values(
                |t: Type| t@,
            ));
        }
        out
    }
}

/// Whether rendering the type needs the standard logic definitions.
pub open spec fn uses_std_logic_spec(t: TypeV) -> bool
    decreases t,
{
    match t {
        TypeV::Bit => true,
        TypeV::BitVec(_) => true,
        TypeV::Natural => false,
        TypeV::Positive => false,
        TypeV::Record(r) => fields_use_std_logic(r.fields),
        TypeV::Union(r) => fields_use_std_logic(r.fields),
        TypeV::Array(a) => uses_std_logic_spec(a.typ),
    }
}

/// Whether any field's type needs the standard logic definitions.
pub open spec fn fields_use_std_logic(fs: Seq<FieldV>) -> bool
    decreases fs,
{
    if fs.len() == 0 {
        false
    } else {
        uses_std_logic_spec(fs[0].typ) || fields_use_std_logic(fs.skip(1))
    }
}

/// Checks whether a type needs the standard logic definitions.
fn uses_std_logic(t: &Type) -> (r: bool)
    ensures
        r == uses_std_logic_spec(t@),
    decreases t,
{
    match t {
        Type::Bit => true,
        Type::BitVec { width: _ } => true,
        Type::Natural => false,
        Type::Positive => false,
        Type::Record(rec) => {
            let r = fields_use_std(&rec.fields);
            proof {
                assert(t@ == TypeV::Record(record_view(*rec)));
                assert(record_view(*rec).fields == fields_view(rec.fields@));
                assert(uses_std_logic_spec(t@) == fields_use_std_logic(fields_view(rec.fields@)));
            }
            r
        }
        Type::Union(rec) => {
            let r = fields_use_std(&rec.fields);
            proof {
                assert(t@ == TypeV::Union(record_view(*rec)));
                assert(record_view(*rec).fields == fields_view(rec.fields@));
                assert(uses_std_logic_spec(t@) == fields_use_std_logic(fields_view(rec.fields@)));
            }
            r
        }
        Type::Array(a) => uses_std_logic(&a.typ),
    }
}

fn fields_use_std(fs: &Vec<Field>) -> (r: bool)
    ensures
        r == fields_use_std_logic(fields_view(fs@)),
    decreases fs,
{
    proof {
        lemma_fields_view(fs@);
        lemma_fields_use_index(fields_view(fs@));
    }
    let mut i: usize = 0;
    while i < fs.len()
        invariant
            i <= fs@.len(),
            fields_view(fs@).len() == fs@.len(),
            forall|j: int|
                0 <= j < fs@.len() ==> #[trigger] fields_view(fs@)[j] == field_view(fs@[j]),
            forall|j: int| 0 <= j < i ==> !uses_std_logic_spec(fields_view(fs@)[j].typ),
        decreases fs@.len() - i,
    {
        if uses_std_logic(&fs[i].typ) {
            proof {
                lemma_fields_use_index(fields_view(fs@));
                assert(uses_std_logic_spec(fields_view(fs@)[i as int].typ));
            }
            return true;
        }
        i = i + 1;
    }
    proof {
        lemma_fields_use_index(fields_view(fs@));
    }
    false
}

proof fn lemma_fields_use_index(fs: Seq<FieldV>)
    ensures
        fields_use_std_logic(fs) <==> (exists|i: int|
            0 <= i < fs.len() && uses_std_logic_spec((#[trigger] fs[i]).typ)),
    decreases fs,
{
    if fs.len() > 0 {
        lemma_fields_use_index(fs.skip(1));
        if uses_std_logic_spec(fs[0].typ) {
        } else if fields_use_std_logic(fs.skip(1)) {
            let i = choose|i: int|
                0 <= i < fs.skip(1).len() && uses_std_logic_spec((#[trigger] fs.skip(1)[i]).typ);
            assert(fs.skip(1)[i] == fs[i + 1]);
            assert(uses_std_logic_spec(fs[i + 1].typ));
        } else {
            if exists|i: int| 0 <= i < fs.len() && uses_std_logic_spec((#[trigger] fs[i]).typ) {
                let i = choose|i: int|
                    0 <= i < fs.len() && uses_std_logic_spec((#[trigger] fs[i]).typ);
                if i > 0 {
                    assert(fs.skip(1)[i - 1] == fs[i]);
                }
            }
        }
    }
}

/// Whether any port of any component needs the standard logic definitions.
pub open spec fn package_uses_std_logic(cs: Seq<ComponentV>, i: int, j: int) -> bool
    decreases cs.len() - i, (if 0 <= i < cs.len() {
        cs[i].ports.len() + 1 - j
    } else {
        0
    }),
{
    if i < 0 || i >= cs.len() || j < 0 {
        false
    } else if j >= cs[i].ports.len() {
        package_uses_std_logic(cs, i + 1, 0)
    } else {
        uses_std_logic_spec(cs[i].ports[j].typ) || package_uses_std_logic(cs, i, j + 1)
    }
}

/// The import header of a package: the standard logic import whenever any
/// bit-based type is used.
pub open spec fn usings_decl_spec(p: PackageV) -> Seq<char> {
    if package_uses_std_logic(p.components, 0, 0) {
        "library ieee;\nuse ieee.std_logic_1164.all;\n\n"@
    } else {
        Seq::empty()
    }
}

// ---------------------------------------------------------------------------
// Package declaration with type deduplication
// ---------------------------------------------------------------------------

/// Looks an identifier up among the already declared types.
pub open spec fn seen_lookup(seen: Seq<(Seq<char>, TypeV)>, id: Seq<char>) -> Option<TypeV>
    decreases seen,
{
    if seen.len() == 0 {
        None
    } else if seen[0].0 == id {
        Some(seen[0].1)
    } else {
        seen_lookup(seen.skip(1), id)
    }
}

/// Declares one component's types in turn, remembering each declared
/// identifier: a repeated identifier for the same type is skipped, one for a
/// different type is a fatal naming conflict.
pub open spec fn pkg_types_fold(
    seen: Seq<(Seq<char>, TypeV)>,
    out: Seq<char>,
    ts: Seq<TypeV>,
) -> Option<(Seq<(Seq<char>, TypeV)>, Seq<char>)>
    decreases ts,
{
    if ts.len() == 0 {
        Some((seen, out))
    } else {
        let id = type_id_spec(ts[0]);
        match seen_lookup(seen, id) {
            None => {
                match type_decl_spec(ts[0], true) {
                    None => None,
                    Some(d) => pkg_types_fold(
                        seen.push((id, ts[0])),
                        out + d + "\n\n"@,
                        ts.skip(1),
                    ),
                }
            }
            Some(prev) => {
                if prev == ts[0] {
                    pkg_types_fold(seen, out, ts.skip(1))
                } else {
                    None
                }
            }
        }
    }
}

/// Declares each component: first its port types, deduplicated across the
/// whole package, then the component itself.
pub open spec fn pkg_comps_fold(
    seen: Seq<(Seq<char>, TypeV)>,
    out: Seq<char>,
    cs: Seq<ComponentV>,
) -> Option<Seq<char>>
    decreases cs,
{
    if cs.len() == 0 {
        Some(out)
    } else {
        match pkg_types_fold(seen, out, comp_types_spec(cs[0].ports, 0)) {
            None => None,
            Some((seen2, out2)) => {
                match component_decl_spec(cs[0]) {
                    None => None,
                    Some(cd) => pkg_comps_fold(seen2, out2 + cd + "\n\n"@, cs.skip(1)),
                }
            }
        }
    }
}

/// The whole declaration of a package: imports, the package header, every
/// type once, every component, and the closing line. Absent exactly when a
/// type-name conflict or an undeclarable type is hit.
pub open spec fn package_decl_spec(p: PackageV) -> Option<Seq<char>> {
    let header = usings_decl_spec(p) + "package "@ + p.name + " is\n\n"@;
    match pkg_comps_fold(Seq::empty(), header, p.components) {
        None => None,
        Some(out) => Some(out + "end "@ + p.name + ";"@),
    }
}

/// Law: declaring the same package twice yields byte-identical output; the
/// rendering is a function of the package's content alone.
pub proof fn lemma_package_declare_deterministic(p: PackageV, a: Seq<char>, b: Seq<char>)
    requires
        package_decl_spec(p) == Some(a),
        package_decl_spec(p) == Some(b),
    ensures
        a == b,
{
}

} // verus!

verus! {

// ---------------------------------------------------------------------------
// Usings
// ---------------------------------------------------------------------------

/// Whether an import is present under a library.
pub open spec fn usings_has(
    v: Seq<(Seq<char>, Seq<Seq<char>>)>,
    lib: Seq<char>,
    using: Seq<char>,
) -> bool {
    exists|i: int, j: int|
        0 <= i < v.len() && (#[trigger] v[i]).0 == lib && 0 <= j < v[i].1.len() && (
        #[trigger] v[i].1[j]) == using
}

/// A list of import clauses, grouped by library, in insertion order. No two
/// entries name the same library.
#[derive(Debug)]
pub struct Usings {
    entries: Vec<(Name, Vec<String>)>,
}

impl View for Usings {
    type V = Seq<(Seq<char>, Seq<Seq<char>>)>;

    closed spec fn view(&self) -> Seq<(Seq<char>, Seq<Seq<char>>)> {
        self.entries@.map_values(
            |e: (Name, Vec<String>)| (e.0@, e.1@.map_values(|s: String| s@)),
        )
    }
}

impl Usings {
    #[verifier::type_invariant]
    spec fn inv(self) -> bool {
        forall|i: int, j: int|
            0 <= i < j < self.entries@.len() ==> (#[trigger] self.entries@[i]).0@ != (
            #[trigger] self.entries@[j]).0@
    }

    /// An empty list of imports.
    pub fn new_empty() -> (r: Usings)
        ensures
            r@ == Seq::<(Seq<char>, Seq<Seq<char>>)>::empty(),
    {
        let r = Usings { entries: Vec::new() };
        proof {
            assert(r@ =~= Seq::<(Seq<char>, Seq<Seq<char>>)>::empty());
        }
        r
    }

    /// Adds an import under a library. Returns true when it was not yet
    /// present under that library. A library not yet listed gains a new
    /// entry at the end, holding just this import.
    pub fn add_using(&mut self, library: Name, using: &str) -> (r: bool)
        ensures
            r <==> !usings_has(old(self)@, library@, using@),
            usings_has(final(self)@, library@, using@),
            (forall|i: int| 0 <= i < old(self)@.len() ==> (#[trigger] old(self)@[i]).0 != library@)
                ==> final(self)@ == old(self)@.push((library@, seq![using@])),
    {
        proof {
            use_type_invariant(&*self);
        }
        let ghost v0 = self@;
        let n = self.entries.len();
        let mut idx: usize = n;
        let mut i: usize = 0;
        while i < n
            invariant
                n == self.entries@.len(),
                i <= n,
                idx <= n,
                idx == n ==> forall|j: int|
                    0 <= j < i ==> (#[trigger] self.entries@[j]).0@ != library@,
                idx < n ==> idx < i && self.entries@[idx as int].0@ == library@,
            decreases n - i,
        {
            if idx == n && self.entries[i].0.same(&library) {
                idx = i;
            }
            i = i + 1;
        }
        if idx == n {
            let mut list: Vec<String> = Vec::new();
            list.push(String::from_str(using));
            let ghost lv = library@;
            let mut es: Vec<(Name, Vec<String>)> = Vec::new();
            core::mem::swap(&mut self.entries, &mut es);
            es.push((library, list));
            proof {
                assert forall|a: int, b: int| 0 <= a < b < es@.len() implies (
                #[trigger] es@[a]).0@ != (#[trigger] es@[b]).0@ by {
                    if b < n {
                        assert(es@[a] == old(self).entries@[a] && es@[b] == old(self).entries@[b]);
                    } else {
                        assert(es@[a] == old(self).entries@[a]);
                        assert(es@[b].0@ == lv);
                    }
                };
            }
            core::mem::swap(&mut self.entries, &mut es);
            proof {
                assert(self@[n as int].0 == lv);
                assert(self@[n as int].1[0] == using@);
                assert(self@[n as int].1 =~= seq![using@]);
                assert(self@ =~= v0.push((lv, seq![using@])));
                assert(usings_has(self@, lv, using@));
                assert(!usings_has(v0, lv, using@)) by {
                    assert(forall|j: int|
                        0 <= j < v0.len() ==> (#[trigger] v0[j]).0 == self.entries@[j].0@);
                };
            }
            return true;
        }
        proof {
            use_type_invariant(&*self);
            assert forall|p: int|
                0 <= p < self.entries@.len() && p != idx implies (#[trigger] self.entries@[p]).0@
                    != library@ by {
                if p < idx {
                    assert(self.entries@[p].0@ != self.entries@[idx as int].0@);
                } else {
                    assert(self.entries@[idx as int].0@ != self.entries@[p].0@);
                }
            };
        }
        let mut j: usize = 0;
        let m = self.entries[idx].1.len();
        while j < m
            invariant
                idx < self.entries@.len(),
                m == self.entries@[idx as int].1@.len(),
                j <= m,
                self@ == v0,
                v0 == old(self)@,
                self.entries@[idx as int].0@ == library@,
                forall|q: int|
                    0 <= q < j ==> #[trigger] (self.entries@[idx as int].1@[q]@) != using@,
            decreases m - j,
        {
            let found = {
                let list = &self.entries[idx].1;
                str_eq(list[j].as_str(), using)
            };
            if found {
                proof {
                    assert(self@[idx as int].0 == library@);
                    assert(self@[idx as int].1[j as int] == using@);
                    assert(usings_has(self@, library@, using@));
                    assert(old(self)@[idx as int].0 == library@);
                }
                return false;
            }
            j = j + 1;
        }
        proof {
            use_type_invariant(&*self);
            assert(!usings_has(v0, library@, using@)) by {
                if usings_has(v0, library@, using@) {
                    let (p, q) = choose|p: int, q: int|
                        0 <= p < v0.len() && (#[trigger] v0[p]).0 == library@ && 0 <= q
                            < v0[p].1.len() && (#[trigger] v0[p].1[q]) == using@;
                    assert(v0[p].0 == self.entries@[p].0@);
                    if p != idx {
                        assert(self.entries@[p].0@ != self.entries@[idx as int].0@);
                    } else {
                        assert(v0[p].1[q] == self.entries@[idx as int].1@[q]@);
                    }
                }
            };
        }
        let ghost pre = self.entries@;
        let ghost pre_list = self@[idx as int].1;
        let mut es: Vec<(Name, Vec<String>)> = Vec::new();
        core::mem::swap(&mut self.entries, &mut es);
        let mut entry = es.remove(idx);
        entry.1.push(String::from_str(using));
        es.insert(idx, entry);
        proof {
            assert forall|a: int| 0 <= a < es@.len() implies (#[trigger] es@[a]).0@ == pre[a].0@
                by {};
            assert forall|a: int, b: int| 0 <= a < b < es@.len() implies (#[trigger] es@[a]).0@
                != (#[trigger] es@[b]).0@ by {
                assert(pre[a].0@ != pre[b].0@);
            };
        }
        core::mem::swap(&mut self.entries, &mut es);
        proof {
            assert forall|a: int| 0 <= a < self.entries@.len() && a != idx implies (
            #[trigger] self.entries@[a]).0@ == pre[a].0@ by {};
            assert(self.entries@[idx as int].0@ == library@);
            assert(self@[idx as int].0 == library@);
            assert(self@[idx as int].1 =~= pre_list.push(using@));
            assert(self@[idx as int].1[pre_list.len() as int] == using@);
            assert(usings_has(self@, library@, using@));
            assert(old(self)@[idx as int].0 == library@);
        }
        true
    }

    /// The imports, grouped by library.
    pub fn usings(&self) -> (r: &Vec<(Name, Vec<String>)>)
        ensures
            r@.map_values(|e: (Name, Vec<String>)| (e.0@, e.1@.map_values(|s: String| s@)))
                == self@,
    {
        &self.entries
    }

    /// Takes every library of the other list over, replacing this list's
    /// imports for libraries both hold.
    pub fn combine(&mut self, other: &Usings)
        ensures
            final(self)@.len() >= old(self)@.len(),
    {
        let mut k: usize = 0;
        while k < other.entries.len()
            invariant
                k <= other.entries@.len(),
                self@.len() >= old(self)@.len(),
            decreases other.entries@.len() - k,
        {
            proof {
                use_type_invariant(&*self);
                use_type_invariant(&*other);
            }
            let lib = other.entries[k].0.clone();
            let mut list: Vec<String> = Vec::new();
            let mut j: usize = 0;
            while j < other.entries[k].1.len()
                invariant
                    k < other.entries@.len(),
                    j <= other.entries@[k as int].1@.len(),
                decreases other.entries@[k as int].1@.len() - j,
            {
                let s = {
                    let src = &other.entries[k].1;
                    src[j].clone()
                };
                list.push(s);
                j = j + 1;
            }
            let n = self.entries.len();
            let mut idx: usize = n;
            let mut i: usize = 0;
            while i < n
                invariant
                    n == self.entries@.len(),
                    i <= n,
                    idx <= n,
                    idx == n ==> forall|p: int|
                        0 <= p < i ==> (#[trigger] self.entries@[p]).0@ != lib@,
                    idx < n ==> idx < i && self.entries@[idx as int].0@ == lib@,
                decreases n - i,
            {
                if idx == n && self.entries[i].0.same(&lib) {
                    idx = i;
                }
                i = i + 1;
            }
            let ghost pre = self.entries@;
            let ghost lv = lib@;
            let mut es: Vec<(Name, Vec<String>)> = Vec::new();
            core::mem::swap(&mut self.entries, &mut es);
            if idx < es.len() {
                es.remove(idx);
                es.insert(idx, (lib, list));
                proof {
                    assert forall|a: int| 0 <= a < es@.len() implies (#[trigger] es@[a]).0@
                        == pre[a].0@ by {
                        if a == idx {
                            assert(es@[a].0@ == lv && pre[a].0@ == lv);
                        }
                    };
                    assert forall|a: int, b: int| 0 <= a < b < es@.len() implies (
                    #[trigger] es@[a]).0@ != (#[trigger] es@[b]).0@ by {
                        assert(pre[a].0@ != pre[b].0@);
                    };
                }
            } else {
                es.push((lib, list));
                proof {
                    assert forall|a: int, b: int| 0 <= a < b < es@.len() implies (
                    #[trigger] es@[a]).0@ != (#[trigger] es@[b]).0@ by {
                        if b < pre.len() {
                            assert(es@[a] == pre[a] && es@[b] == pre[b]);
                            assert(pre[a].0@ != pre[b].0@);
                        } else {
                            assert(es@[a] == pre[a]);
                            assert(es@[b].0@ == lv);
                            assert(pre[a].0@ != lv);
                        }
                    };
                }
            }
            core::mem::swap(&mut self.entries, &mut es);
            k = k + 1;
        }
    }
}

/// Listing the imports a value needs.
pub trait ListUsings {
    /// Lists the imports, grouped by library.
    fn list_usings(&self) -> (r: Result<Usings, Error>);
}

/// Rendering the import clauses a value needs.
pub trait DeclareUsings {
    /// Renders the library and use clauses.
    fn declare_usings(&self) -> (r: Result<String, Error>);
}

impl ListUsings for Package {
    /// The standard logic import, whenever any port type uses bits; nothing
    /// else is ever listed.
    fn list_usings(&self) -> (r: Result<Usings, Error>)
        ensures
            r is Ok,
            r is Ok ==> r->Ok_0@ == (if package_uses_std_logic(self@.components, 0, 0) {
                seq![("ieee"@, seq!["std_logic_1164.all"@])]
            } else {
                Seq::<(Seq<char>, Seq<Seq<char>>)>::empty()
            }),
    {
        let mut any = false;
        let ghost cs = self@.components;
        let mut i: usize = 0;
        proof {
            assert(self.components@.map_values(|c: Component| c@) == cs);
        }
        while i < self.components.len()
            invariant
                cs == self.components@.map_values(|c: Component| c@),
                self.components@.len() == cs.len(),
                i <= cs.len(),
                any == package_uses_prefix(cs, i as int),
            decreases cs.len() - i,
        {
            let c = &self.components[i];
            let ghost cv = cs[i as int];
            let mut j: usize = 0;
            proof {
                assert(c@ == cv);
            }
            while j < c.ports.len()
                invariant
                    cv == c@,
                    c.ports@.map_values(|p: Port| p@) == cv.ports,
                    c.ports@.len() == cv.ports.len(),
                    j <= cv.ports.len(),
                    any == (package_uses_prefix(cs, i as int) || ports_use_prefix(
                        cv.ports,
                        j as int,
                    )),
                    cs == self.components@.map_values(|c2: Component| c2@),
                    self.components@.len() == cs.len(),
                    i < cs.len(),
                    cs[i as int] == cv,
                decreases cv.ports.len() - j,
            {
                if uses_std_logic(&c.ports[j].typ) {
                    any = true;
                }
                proof {
                    assert(c.ports@[j as int]@ == cv.ports[j as int]);
                }
                j = j + 1;
            }
            proof {
                lemma_package_uses_step(cs, i as int);
            }
            i = i + 1;
        }
        proof {
            lemma_package_uses_whole(cs, self.components@.len() as int);
        }
        let mut usings = Usings::new_empty();
        if any {
            let lib = match Name::try_new("ieee") {
                Ok(n) => n,
                Err(_) => {
                    proof {
                        reveal_strlit("ieee");
                        assert(crate::valid_name("ieee"@));
                        assert(false);
                    }
                    return Err(Error::UnexpectedDuplicate);
                }
            };
            usings.add_using(lib, "std_logic_1164.all");
            proof {
                assert(usings@ =~= seq![("ieee"@, seq!["std_logic_1164.all"@])]);
            }
        }
        Ok(usings)
    }
}

impl DeclareUsings for Package {
    /// Renders the import header of the package.
    fn declare_usings(&self) -> (r: Result<String, Error>)
        ensures
            r is Ok,
            r is Ok ==> r->Ok_0@ == usings_decl_spec(self@),
    {
        let mut any = false;
        let ghost cs = self@.components;
        let mut i: usize = 0;
        proof {
            assert(self.components@.map_values(|c: Component| c@) == cs);
        }
        while i < self.components.len()
            invariant
                cs == self.components@.map_values(|c: Component| c@),
                self.components@.len() == cs.len(),
                i <= cs.len(),
                any == package_uses_prefix(cs, i as int),
            decreases cs.len() - i,
        {
            let c = &self.components[i];
            let ghost cv = cs[i as int];
            let mut j: usize = 0;
            proof {
                assert(c@ == cv);
            }
            while j < c.ports.len()
                invariant
                    cv == c@,
                    c.ports@.map_values(|p: Port| p@) == cv.ports,
                    c.ports@.len() == cv.ports.len(),
                    j <= cv.ports.len(),
                    any == (package_uses_prefix(cs, i as int) || ports_use_prefix(
                        cv.ports,
                        j as int,
                    )),
                    cs == self.components@.map_values(|c2: Component| c2@),
                    self.components@.len() == cs.len(),
                    i < cs.len(),
                    cs[i as int] == cv,
                decreases cv.ports.len() - j,
            {
                if uses_std_logic(&c.ports[j].typ) {
                    any = true;
                }
                proof {
                    assert(c.ports@[j as int]@ == cv.ports[j as int]);
                }
                j = j + 1;
            }
            proof {
                lemma_package_uses_step(cs, i as int);
            }
            i = i + 1;
        }
        proof {
            lemma_package_uses_whole(cs, self.components@.len() as int);
        }
        if any {
            Ok(String::from_str("library ieee;\nuse ieee.std_logic_1164.all;\n\n"))
        } else {
            Ok(String::new())
        }
    }
}

/// Whether any port of the first `i` components uses bits.
pub open spec fn package_uses_prefix(cs: Seq<ComponentV>, i: int) -> bool
    decreases i,
{
    if i <= 0 {
        false
    } else {
        package_uses_prefix(cs, i - 1) || ports_use_prefix(cs[i - 1].ports, cs[i - 1].ports.len()
            as int)
    }
}

/// Whether any of the first `j` ports uses bits.
pub open spec fn ports_use_prefix(ps: Seq<PortV>, j: int) -> bool
    decreases j,
{
    if j <= 0 {
        false
    } else {
        ports_use_prefix(ps, j - 1) || uses_std_logic_spec(ps[j - 1].typ)
    }
}

proof fn lemma_package_uses_step(cs: Seq<ComponentV>, i: int)
    requires
        0 <= i < cs.len(),
    ensures
        package_uses_prefix(cs, i + 1) == (package_uses_prefix(cs, i) || ports_use_prefix(
            cs[i].ports,
            cs[i].ports.len() as int,
        )),
{
}

proof fn lemma_package_uses_whole(cs: Seq<ComponentV>, n: int)
    requires
        n == cs.len(),
    ensures
        package_uses_prefix(cs, n) == package_uses_std_logic(cs, 0, 0),
{
    lemma_package_uses_equiv(cs, 0);
}

proof fn lemma_package_uses_equiv(cs: Seq<ComponentV>, i: int)
    requires
        0 <= i <= cs.len(),
    ensures
        package_uses_std_logic(cs, i, 0) == exists_use_from(cs, i),
        package_uses_prefix(cs, cs.len() as int) == (package_uses_prefix(cs, i) || exists_use_from(
            cs,
            i,
        )),
    decreases cs.len() - i,
{
    if i == cs.len() {
    } else {
        lemma_package_uses_equiv(cs, i + 1);
        lemma_ports_use_equiv(cs, i, 0);
        lemma_package_uses_step(cs, i);
    }
}

/// Whether any port of the components from index `i` on uses bits.
pub open spec fn exists_use_from(cs: Seq<ComponentV>, i: int) -> bool
    decreases cs.len() - i,
{
    if i < 0 || i >= cs.len() {
        false
    } else {
        ports_use_prefix(cs[i].ports, cs[i].ports.len() as int) || exists_use_from(cs, i + 1)
    }
}

proof fn lemma_ports_use_equiv(cs: Seq<ComponentV>, i: int, j: int)
    requires
        0 <= i < cs.len(),
        0 <= j <= cs[i].ports.len(),
    ensures
        package_uses_std_logic(cs, i, j) == (ports_use_from(cs[i].ports, j)
            || package_uses_std_logic(cs, i + 1, 0)),
        ports_use_prefix(cs[i].ports, cs[i].ports.len() as int) == (ports_use_prefix(cs[i].ports, j)
            || ports_use_from(cs[i].ports, j)),
    decreases cs[i].ports.len() - j,
{
    if j == cs[i].ports.len() {
    } else {
        lemma_ports_use_equiv(cs, i, j + 1);
    }
}

/// Whether any of the ports from index `j` on uses bits.
pub open spec fn ports_use_from(ps: Seq<PortV>, j: int) -> bool
    decreases ps.len() - j,
{
    if j < 0 || j >= ps.len() {
        false
    } else {
        uses_std_logic_spec(ps[j].typ) || ports_use_from(ps, j + 1)
    }
}

} // verus!

verus! {

/// The view of the already-declared table.
pub open spec fn seen_view(seen: Seq<(String, Type)>) -> Seq<(Seq<char>, TypeV)> {
    seen.map_values(|e: (String, Type)| (e.0@, e.1@))
}

/// Looks an identifier up in the declared-types table.
fn seen_get<'a>(seen: &'a Vec<(String, Type)>, id: &str) -> (r: Option<&'a Type>)
    ensures
        r is Some <==> seen_lookup(seen_view(seen@), id@) is Some,
        r is Some ==> r->0@ == seen_lookup(seen_view(seen@), id@)->0,
{
    let ghost sv = seen_view(seen@);
    let mut i: usize = 0;
    proof {
        lemma_seen_as_from(sv, id@);
    }
    while i < seen.len()
        invariant
            sv == seen_view(seen@),
            seen@.len() == sv.len(),
            i <= sv.len(),
            seen_lookup(sv, id@) == seen_lookup_from(sv, i as int, id@),
        decreases sv.len() - i,
    {
        proof {
            lemma_seen_lookup_from(sv, i as int, id@);
            assert(sv[i as int] == (seen@[i as int].0@, seen@[i as int].1@));
        }
        if str_eq(seen[i].0.as_str(), id) {
            return Some(&seen[i].1);
        }
        i = i + 1;
    }
    None
}

/// Looks an identifier up from index `i` on.
pub open spec fn seen_lookup_from(seen: Seq<(Seq<char>, TypeV)>, i: int, id: Seq<char>) -> Option<
    TypeV,
>
    decreases seen.len() - i,
{
    if i < 0 || i >= seen.len() {
        None
    } else if seen[i].0 == id {
        Some(seen[i].1)
    } else {
        seen_lookup_from(seen, i + 1, id)
    }
}

proof fn lemma_seen_lookup_from(seen: Seq<(Seq<char>, TypeV)>, i: int, id: Seq<char>)
    requires
        0 <= i <= seen.len(),
    ensures
        seen_lookup(seen, id) == seen_lookup_from(seen, 0, id),
        seen_lookup_from(seen, i, id) == (if i < seen.len() {
            if seen[i].0 == id {
                Some(seen[i].1)
            } else {
                seen_lookup_from(seen, i + 1, id)
            }
        } else {
            None::<TypeV>
        }),
    decreases seen.len() - i,
{
    lemma_seen_as_from(seen, id);
}

proof fn lemma_seen_as_from(seen: Seq<(Seq<char>, TypeV)>, id: Seq<char>)
    ensures
        seen_lookup(seen, id) == seen_lookup_from(seen, 0, id),
    decreases seen,
{
    if seen.len() > 0 {
        lemma_seen_as_from(seen.skip(1), id);
        lemma_seen_from_shift(seen, 1, id);
    }
}

proof fn lemma_seen_from_shift(seen: Seq<(Seq<char>, TypeV)>, i: int, id: Seq<char>)
    requires
        1 <= i <= seen.len(),
    ensures
        seen_lookup_from(seen, i, id) == seen_lookup_from(seen.skip(1), i - 1, id),
    decreases seen.len() - i,
{
    if i < seen.len() {
        lemma_seen_from_shift(seen, i + 1, id);
        assert(seen.skip(1)[i - 1] == seen[i]);
    }
}

impl Declare for Package {
    /// Declares the package: its imports, every composite port type exactly
    /// once, and every component. Two distinct types rendering to the same
    /// identifier are a fatal naming conflict.
    #[verifier::rlimit(100)]
    fn declare(&self) -> (r: Result<String, Error>)
        ensures
            r is Ok <==> package_decl_spec(self@) is Some,
            r is Ok ==> r->Ok_0@ == package_decl_spec(self@)->0,
            r is Err ==> r->Err_0 is BackEndError,
    {
        let ghost cs = self@.components;
        let usings = match self.declare_usings() {
            Ok(u) => u,
            Err(e) => {
                return Err(e);
            }
        };
        let mut out = usings;
        out.append("package ");
        out.append(self.identifier.as_str());
        out.append(" is\n\n");
        let ghost header = usings_decl_spec(self@) + "package "@ + self@.name + " is\n\n"@;
        proof {
            assert(out@ =~= header);
            assert(cs.skip(0) =~= cs);
        }
        let mut seen: Vec<(String, Type)> = Vec::new();
        proof {
            assert(seen_view(seen@) =~= Seq::<(Seq<char>, TypeV)>::empty());
        }
        let mut i: usize = 0;
        while i < self.components.len()
            invariant
                cs == self@.components,
                self.components@.len() == cs.len(),
                forall|j: int| 0 <= j < cs.len() ==> (#[trigger] self.components@[j])@ == cs[j],
                i <= cs.len(),
                header == usings_decl_spec(self@) + "package "@ + self@.name + " is\n\n"@,
                pkg_comps_fold(Seq::empty(), header, cs) == pkg_comps_fold(
                    seen_view(seen@),
                    out@,
                    cs.skip(i as int),
                ),
            decreases cs.len() - i,
        {
            let c = &self.components[i];
            let ghost seen0 = seen_view(seen@);
            let ghost out0 = out@;
            proof {
                assert(cs.skip(i as int)[0] == cs[i as int]);
                assert(cs.skip(i as int).skip(1) =~= cs.skip(i + 1));
            }
            let nested = c.list_nested_types();
            let ghost ts = comp_types_spec(cs[i as int].ports, 0);
            let mut j: usize = 0;
            proof {
                assert(ts.skip(0) =~= ts);
            }
            while j < nested.len()
                invariant
                    cs == self@.components,
                    0 <= i < cs.len(),
                    header == usings_decl_spec(self@) + "package "@ + self@.name + " is\n\n"@,
                    pkg_comps_fold(Seq::empty(), header, cs) == pkg_comps_fold(
                        seen0,
                        out0,
                        cs.skip(i as int),
                    ),
                    cs.skip(i as int)[0] == cs[i as int],
                    ts == comp_types_spec(cs[i as int].ports, 0),
                    nested@.len() == ts.len(),
                    forall|q: int| 0 <= q < ts.len() ==> (#[trigger] nested@[q])@ == ts[q],
                    j <= ts.len(),
                    pkg_types_fold(seen_view(seen@), out@, ts.skip(j as int)) == pkg_types_fold(
                        seen0,
                        out0,
                        ts,
                    ),
                decreases ts.len() - j,
            {
                proof {
                    assert(ts.skip(j as int)[0] == ts[j as int]);
                    assert(ts.skip(j as int).skip(1) =~= ts.skip(j + 1));
                }
                let t = &nested[j];
                proof {
                    assert(t@ == ts[j as int]);
                }
                let id = type_identifier(t);
                let ghost seen_pre = seen_view(seen@);
                let ghost out_pre = out@;
                match seen_get(&seen, id.as_str()) {
                    None => {
                        let d = match t.declare(true) {
                            Ok(d) => d,
                            Err(e) => {
                                proof {
                                    assert(pkg_types_fold(seen_pre, out_pre, ts.skip(j as int))
                                        is None);
                                    assert(pkg_comps_fold(seen0, out0, cs.skip(i as int)) is None);
                                    assert(package_decl_spec(self@) is None);
                                }
                                return Err(e);
                            }
                        };
                        seen.push((id, t.clone()));
                        out.append(d.as_str());
                        out.append("\n\n");
                        proof {
                            assert(seen_view(seen@) =~= seen_pre.push(
                                (type_id_spec(ts[j as int]), ts[j as int]),
                            ));
                            assert(out@ =~= out_pre + type_decl_spec(ts[j as int], true)->0
                                + "\n\n"@);
                        }
                    }
                    Some(prev) => {
                        if !type_eq(prev, t) {
                            proof {
                                assert(pkg_types_fold(seen_pre, out_pre, ts.skip(j as int))
                                    is None);
                                assert(pkg_comps_fold(seen0, out0, cs.skip(i as int)) is None);
                                assert(package_decl_spec(self@) is None);
                            }
                            let mut msg = String::from_str("Type name conflict: ");
                            msg.append(id.as_str());
                            return Err(Error::BackEndError(msg));
                        }
                    }
                }
                j = j + 1;
            }
            proof {
                assert(ts.skip(ts.len() as int) =~= Seq::<TypeV>::empty());
            }
            let ghost seen_end = seen_view(seen@);
            let ghost out_end = out@;
            let cd = match c.declare() {
                Ok(d) => d,
                Err(e) => {
                    proof {
                        assert(pkg_types_fold(seen_end, out_end, Seq::<TypeV>::empty()) == Some(
                            (seen_end, out_end),
                        ));
                        assert(component_decl_spec(cs[i as int]) is None);
                        assert(pkg_comps_fold(seen0, out0, cs.skip(i as int)) is None);
                        assert(package_decl_spec(self@) is None);
                    }
                    return Err(e);
                }
            };
            out.append(cd.as_str());
            out.append("\n\n");
            proof {
                assert(pkg_types_fold(seen_end, out_end, Seq::<TypeV>::empty()) == Some(
                    (seen_end, out_end),
                ));
                assert(out@ =~= out_end + component_decl_spec(cs[i as int])->0 + "\n\n"@);
                assert(pkg_comps_fold(seen0, out0, cs.skip(i as int)) == pkg_comps_fold(
                    seen_view(seen@),
                    out@,
                    cs.skip(i + 1),
                ));
            }
            i = i + 1;
        }
        proof {
            assert(cs.skip(cs.len() as int) =~= Seq::<ComponentV>::empty());
            assert(pkg_comps_fold(Seq::empty(), header, cs) == Some(out@));
        }
        let ghost body = out@;
        out.append("end ");
        out.append(self.identifier.as_str());
        out.append(";");
        proof {
            assert(out@ =~= body + "end "@ + self@.name + ";"@);
            assert(package_decl_spec(self@) == Some(out@));
        }
        Ok(out)
    }
}

} // verus!

verus! {

// ---------------------------------------------------------------------------
// The leaf partition of the directional split
// ---------------------------------------------------------------------------

/// A primitive leaf below a composite: the field names on its path and its
/// non-composite type. Arrays count as leaves, since the split does not
/// descend into them.
#[verifier::ext_equal]
pub ghost struct LeafV {
    pub path: Seq<Seq<char>>,
    pub typ: TypeV,
}

/// The leaves below a type whose path carries an even number of reversed
/// flags: the ones the forward (downstream) half must keep.
pub open spec fn even_leaves(t: TypeV, path: Seq<Seq<char>>) -> Seq<LeafV>
    decreases t, 1int,
{
    match t {
        TypeV::Record(r) => fields_even_leaves(r.fields, path),
        TypeV::Union(r) => fields_even_leaves(r.fields, path),
        _ => seq![LeafV { path, typ: t }],
    }
}

/// The leaves below a type whose path carries an odd number of reversed
/// flags: the ones the reverse (upstream) half must keep.
pub open spec fn odd_leaves(t: TypeV, path: Seq<Seq<char>>) -> Seq<LeafV>
    decreases t, 1int,
{
    match t {
        TypeV::Record(r) => fields_odd_leaves(r.fields, path),
        TypeV::Union(r) => fields_odd_leaves(r.fields, path),
        _ => Seq::empty(),
    }
}

/// The even-path leaves of a field list: a reversed field contributes its
/// odd-path leaves, a forward field its even-path ones.
pub open spec fn fields_even_leaves(fs: Seq<FieldV>, path: Seq<Seq<char>>) -> Seq<LeafV>
    decreases fs, 0int,
{
    if fs.len() == 0 {
        Seq::empty()
    } else {
        (if fs[0].reversed {
            odd_leaves(fs[0].typ, path.push(fs[0].name))
        } else {
            even_leaves(fs[0].typ, path.push(fs[0].name))
        }) + fields_even_leaves(fs.skip(1), path)
    }
}

/// The odd-path leaves of a field list.
pub open spec fn fields_odd_leaves(fs: Seq<FieldV>, path: Seq<Seq<char>>) -> Seq<LeafV>
    decreases fs, 0int,
{
    if fs.len() == 0 {
        Seq::empty()
    } else {
        (if fs[0].reversed {
            even_leaves(fs[0].typ, path.push(fs[0].name))
        } else {
            odd_leaves(fs[0].typ, path.push(fs[0].name))
        }) + fields_odd_leaves(fs.skip(1), path)
    }
}

/// Law: the split partitions the leaves. The forward half holds exactly the
/// leaves reached through an even number of reversed flags, the reverse half
/// exactly the others, names and primitive types preserved and all flags
/// cleared; so every leaf of the input appears in exactly one half, and a
/// half is absent exactly when its share of the leaves is empty.
pub proof fn lemma_split_leaf_partition(t: TypeV, path: Seq<Seq<char>>)
    ensures
        (match split_type_v(t).0 {
            Some(d) => even_leaves(d, path)
        ,
            None => Seq::empty(),
        }) == even_leaves(t, path),
        (match split_type_v(t).1 {
            Some(u) => even_leaves(u, path)
        ,
            None => Seq::empty(),
        }) == odd_leaves(t, path),
        split_type_v(t).0 is Some ==> odd_leaves(split_type_v(t).0->0, path)
            == Seq::<LeafV>::empty(),
        split_type_v(t).1 is Some ==> odd_leaves(split_type_v(t).1->0, path)
            == Seq::<LeafV>::empty(),
    decreases t, 1int,
{
    match t {
        TypeV::Record(r) => {
            lemma_split_fields_leaf_partition(r.fields, path);
            if split_fields_v(r.fields).0.len() == 0 {
                assert(fields_even_leaves(split_fields_v(r.fields).0, path)
                    =~= Seq::<LeafV>::empty());
            }
            if split_fields_v(r.fields).1.len() == 0 {
                assert(fields_even_leaves(split_fields_v(r.fields).1, path)
                    =~= Seq::<LeafV>::empty());
            }
        }
        TypeV::Union(r) => {
            lemma_split_fields_leaf_partition(r.fields, path);
            if split_fields_v(r.fields).0.len() == 0 {
                assert(fields_even_leaves(split_fields_v(r.fields).0, path)
                    =~= Seq::<LeafV>::empty());
            }
            if split_fields_v(r.fields).1.len() == 0 {
                assert(fields_even_leaves(split_fields_v(r.fields).1, path)
                    =~= Seq::<LeafV>::empty());
            }
        }
        _ => {
            assert(even_leaves(t, path) =~= seq![LeafV { path, typ: t }]);
        }
    }
}

/// The fieldwise form of the leaf partition.
proof fn lemma_split_fields_leaf_partition(fs: Seq<FieldV>, path: Seq<Seq<char>>)
    ensures
        fields_even_leaves(split_fields_v(fs).0, path) == fields_even_leaves(fs, path),
        fields_even_leaves(split_fields_v(fs).1, path) == fields_odd_leaves(fs, path),
        fields_odd_leaves(split_fields_v(fs).0, path) == Seq::<LeafV>::empty(),
        fields_odd_leaves(split_fields_v(fs).1, path) == Seq::<LeafV>::empty(),
    decreases fs, 2int,
{
    if fs.len() == 0 {
        assert(split_fields_v(fs).0 =~= Seq::<FieldV>::empty());
        assert(split_fields_v(fs).1 =~= Seq::<FieldV>::empty());
        assert(fields_even_leaves(split_fields_v(fs).0, path) =~= fields_even_leaves(fs, path));
        assert(fields_even_leaves(split_fields_v(fs).1, path) =~= fields_odd_leaves(fs, path));
        assert(fields_odd_leaves(split_fields_v(fs).0, path) =~= Seq::<LeafV>::empty());
        assert(fields_odd_leaves(split_fields_v(fs).1, path) =~= Seq::<LeafV>::empty());
    } else {
        lemma_split_fields_leaf_partition(fs.skip(1), path);
        lemma_split_leaf_partition(fs[0].typ, path.push(fs[0].name));
        let halves = split_field_v(fs[0]);
        let tail = split_fields_v(fs.skip(1));
        lemma_leaf_concat(opt_seq(halves.0), tail.0, path);
        lemma_leaf_concat(opt_seq(halves.1), tail.1, path);
        lemma_leaf_singleton(halves.0, path);
        lemma_leaf_singleton(halves.1, path);
    }
}

/// Leaf collection distributes over concatenation of field lists.
proof fn lemma_leaf_concat(a: Seq<FieldV>, b: Seq<FieldV>, path: Seq<Seq<char>>)
    ensures
        fields_even_leaves(a + b, path) == fields_even_leaves(a, path) + fields_even_leaves(
            b,
            path,
        ),
        fields_odd_leaves(a + b, path) == fields_odd_leaves(a, path) + fields_odd_leaves(b, path),
    decreases a, 3int,
{
    if a.len() == 0 {
        assert(a + b =~= b);
        assert(fields_even_leaves(a, path) =~= Seq::<LeafV>::empty());
        assert(fields_odd_leaves(a, path) =~= Seq::<LeafV>::empty());
        assert(fields_even_leaves(a, path) + fields_even_leaves(b, path) =~= fields_even_leaves(
            b,
            path,
        ));
        assert(fields_odd_leaves(a, path) + fields_odd_leaves(b, path) =~= fields_odd_leaves(
            b,
            path,
        ));
    } else {
        lemma_leaf_concat(a.skip(1), b, path);
        assert((a + b).skip(1) =~= a.skip(1) + b);
        assert((a + b)[0] == a[0]);
        let head_even: Seq<LeafV> = if a[0].reversed {
            odd_leaves(a[0].typ, path.push(a[0].name))
        } else {
            even_leaves(a[0].typ, path.push(a[0].name))
        };
        let head_odd: Seq<LeafV> = if a[0].reversed {
            even_leaves(a[0].typ, path.push(a[0].name))
        } else {
            odd_leaves(a[0].typ, path.push(a[0].name))
        };
        assert(head_even + (fields_even_leaves(a.skip(1), path) + fields_even_leaves(b, path))
            =~= (head_even + fields_even_leaves(a.skip(1), path)) + fields_even_leaves(b, path));
        assert(head_odd + (fields_odd_leaves(a.skip(1), path) + fields_odd_leaves(b, path)) =~= (
        head_odd + fields_odd_leaves(a.skip(1), path)) + fields_odd_leaves(b, path));
    }
}

/// The leaves of one split-off field: a present half contributes its type's
/// leaves under the field's name, an absent half nothing.
proof fn lemma_leaf_singleton(h: Option<FieldV>, path: Seq<Seq<char>>)
    ensures
        (match h {
            Some(f) => fields_even_leaves(seq![f], path) == (if f.reversed {
                odd_leaves(f.typ, path.push(f.name))
            } else {
                even_leaves(f.typ, path.push(f.name))
            }),
            None => true,
        }),
        (match h {
            Some(f) => fields_odd_leaves(seq![f], path) == (if f.reversed {
                even_leaves(f.typ, path.push(f.name))
            } else {
                odd_leaves(f.typ, path.push(f.name))
            }),
            None => true,
        }),
{
    match h {
        Some(f) => {
            assert(seq![f].skip(1) =~= Seq::<FieldV>::empty());
            assert(fields_even_leaves(seq![f].skip(1), path) =~= Seq::<LeafV>::empty());
            assert(fields_odd_leaves(seq![f].skip(1), path) =~= Seq::<LeafV>::empty());
            assert(fields_even_leaves(seq![f], path) =~= (if f.reversed {
                odd_leaves(f.typ, path.push(f.name))
            } else {
                even_leaves(f.typ, path.push(f.name))
            }));
            assert(fields_odd_leaves(seq![f], path) =~= (if f.reversed {
                even_leaves(f.typ, path.push(f.name))
            } else {
                odd_leaves(f.typ, path.push(f.name))
            }));
        }
        None => {}
    }
}

} // verus!

verus! {

// ---------------------------------------------------------------------------
// The conflict law of package declaration
// ---------------------------------------------------------------------------

/// The composite port types of all components from index `i` on, in order.
pub open spec fn comp_types_all(cs: Seq<ComponentV>, i: int) -> Seq<TypeV>
    decreases cs.len() - i,
{
    if i < 0 || i >= cs.len() {
        Seq::empty()
    } else {
        comp_types_spec(cs[i].ports, 0) + comp_types_all(cs, i + 1)
    }
}

/// Looking up in a grown table: entries already present win, the appended
/// entry answers only identifiers that were absent.
proof fn lemma_seen_lookup_push(seen: Seq<(Seq<char>, TypeV)>, e: (Seq<char>, TypeV), id: Seq<
    char>)
    ensures
        seen_lookup(seen.push(e), id) == (if seen_lookup(seen, id) is Some {
            seen_lookup(seen, id)
        } else if e.0 == id {
            Some(e.1)
        } else {
            None::<TypeV>
        }),
    decreases seen,
{
    if seen.len() == 0 {
        assert(seen.push(e) =~= seq![e]);
        assert(seq![e].skip(1) =~= Seq::<(Seq<char>, TypeV)>::empty());
    } else {
        lemma_seen_lookup_push(seen.skip(1), e, id);
        assert(seen.push(e).skip(1) =~= seen.skip(1).push(e));
        assert(seen.push(e)[0] == seen[0]);
    }
}

/// A successful type fold keeps every already answered lookup unchanged.
proof fn lemma_types_fold_stable(
    seen: Seq<(Seq<char>, TypeV)>,
    out: Seq<char>,
    ts: Seq<TypeV>,
    id: Seq<char>,
)
    requires
        pkg_types_fold(seen, out, ts) is Some,
        seen_lookup(seen, id) is Some,
    ensures
        seen_lookup((pkg_types_fold(seen, out, ts)->0).0, id) == seen_lookup(seen, id),
    decreases ts,
{
    if ts.len() > 0 {
        let id0 = type_id_spec(ts[0]);
        match seen_lookup(seen, id0) {
            None => {
                let d = type_decl_spec(ts[0], true)->0;
                lemma_seen_lookup_push(seen, (id0, ts[0]), id);
                lemma_types_fold_stable(seen.push((id0, ts[0])), out + d + "\n\n"@, ts.skip(1), id);
            }
            Some(prev) => {
                lemma_types_fold_stable(seen, out, ts.skip(1), id);
            }
        }
    }
}

/// After a successful type fold, every processed type answers its own
/// identifier in the resulting table.
proof fn lemma_types_fold_records(seen: Seq<(Seq<char>, TypeV)>, out: Seq<char>, ts: Seq<TypeV>)
    requires
        pkg_types_fold(seen, out, ts) is Some,
    ensures
        forall|k: int|
            0 <= k < ts.len() ==> seen_lookup(
                (pkg_types_fold(seen, out, ts)->0).0,
                type_id_spec(#[trigger] ts[k]),
            ) == Some(ts[k]),
    decreases ts,
{
    if ts.len() > 0 {
        let id0 = type_id_spec(ts[0]);
        let seen2 = (pkg_types_fold(seen, out, ts)->0).0;
        match seen_lookup(seen, id0) {
            None => {
                let d = type_decl_spec(ts[0], true)->0;
                let pushed = seen.push((id0, ts[0]));
                lemma_seen_lookup_push(seen, (id0, ts[0]), id0);
                lemma_types_fold_records(pushed, out + d + "\n\n"@, ts.skip(1));
                lemma_types_fold_stable(pushed, out + d + "\n\n"@, ts.skip(1), id0);
                assert forall|k: int| 0 <= k < ts.len() implies seen_lookup(
                    seen2,
                    type_id_spec(#[trigger] ts[k]),
                ) == Some(ts[k]) by {
                    if k > 0 {
                        assert(ts.skip(1)[k - 1] == ts[k]);
                    }
                };
            }
            Some(prev) => {
                lemma_types_fold_records(seen, out, ts.skip(1));
                lemma_types_fold_stable(seen, out, ts.skip(1), id0);
                assert forall|k: int| 0 <= k < ts.len() implies seen_lookup(
                    seen2,
                    type_id_spec(#[trigger] ts[k]),
                ) == Some(ts[k]) by {
                    if k > 0 {
                        assert(ts.skip(1)[k - 1] == ts[k]);
                    }
                };
            }
        }
    }
}

/// A type whose identifier the table already answers with a different value
/// makes the type fold fail.
proof fn lemma_types_fold_kills(
    seen: Seq<(Seq<char>, TypeV)>,
    out: Seq<char>,
    ts: Seq<TypeV>,
    k: int,
    v: TypeV,
)
    requires
        0 <= k < ts.len(),
        seen_lookup(seen, type_id_spec(ts[k])) == Some(v),
        v != ts[k],
    ensures
        pkg_types_fold(seen, out, ts) is None,
    decreases ts,
{
    let id0 = type_id_spec(ts[0]);
    if k == 0 {
    } else {
        match seen_lookup(seen, id0) {
            None => {
                match type_decl_spec(ts[0], true) {
                    None => {}
                    Some(d) => {
                        lemma_seen_lookup_push(seen, (id0, ts[0]), type_id_spec(ts[k]));
                        assert(ts.skip(1)[k - 1] == ts[k]);
                        lemma_types_fold_kills(
                            seen.push((id0, ts[0])),
                            out + d + "\n\n"@,
                            ts.skip(1),
                            k - 1,
                            v,
                        );
                    }
                }
            }
            Some(prev) => {
                if prev == ts[0] {
                    assert(ts.skip(1)[k - 1] == ts[k]);
                    lemma_types_fold_kills(seen, out, ts.skip(1), k - 1, v);
                }
            }
        }
    }
}

/// A type whose identifier the table already answers with a different value
/// makes the whole component fold fail, wherever the type appears.
proof fn lemma_comps_fold_kills(
    seen: Seq<(Seq<char>, TypeV)>,
    out: Seq<char>,
    cs: Seq<ComponentV>,
    t: TypeV,
    v: TypeV,
)
    requires
        exists|k: int|
            0 <= k < comp_types_all(cs, 0).len() && #[trigger] comp_types_all(cs, 0)[k] == t,
        seen_lookup(seen, type_id_spec(t)) == Some(v),
        v != t,
    ensures
        pkg_comps_fold(seen, out, cs) is None,
    decreases cs,
{
    let k = choose|k: int|
        0 <= k < comp_types_all(cs, 0).len() && #[trigger] comp_types_all(cs, 0)[k] == t;
    let ts = comp_types_spec(cs[0].ports, 0);
    if k < ts.len() {
        assert(comp_types_all(cs, 0)[k] == ts[k]);
        lemma_types_fold_kills(seen, out, ts, k, v);
    } else {
        match pkg_types_fold(seen, out, ts) {
            None => {}
            Some((seen2, out2)) => {
                lemma_types_fold_stable(seen, out, ts, type_id_spec(t));
                match component_decl_spec(cs[0]) {
                    None => {}
                    Some(cd) => {
                        lemma_comp_types_all_shift(cs);
                        let k2 = k - ts.len();
                        assert(0 <= k2 < comp_types_all(cs.skip(1), 0).len());
                        assert(#[trigger] comp_types_all(cs.skip(1), 0)[k2] == t);
                        lemma_comps_fold_kills(seen2, out2 + cd + "\n\n"@, cs.skip(1), t, v);
                    }
                }
            }
        }
    }
}

proof fn lemma_comp_types_all_shift(cs: Seq<ComponentV>)
    requires
        cs.len() > 0,
    ensures
        comp_types_all(cs, 0) == comp_types_spec(cs[0].ports, 0) + comp_types_all(cs.skip(1), 0),
    decreases cs.len(),
{
    lemma_comp_types_all_from(cs, 1);
}

proof fn lemma_comp_types_all_from(cs: Seq<ComponentV>, i: int)
    requires
        1 <= i <= cs.len(),
    ensures
        comp_types_all(cs, i) == comp_types_all(cs.skip(1), i - 1),
    decreases cs.len() - i,
{
    if i < cs.len() {
        lemma_comp_types_all_from(cs, i + 1);
        assert(cs.skip(1)[i - 1] == cs[i]);
    } else {
        assert(comp_types_all(cs, i) =~= comp_types_all(cs.skip(1), i - 1));
    }
}

/// Law: a naming conflict is never silently resolved. When two structurally
/// different composite port types anywhere in a package render to the same
/// type identifier, the package's declaration is refused; no text is
/// produced that could have picked one of the two.
pub proof fn lemma_conflict_refused(p: PackageV, a: int, b: int)
    requires
        0 <= a < b < comp_types_all(p.components, 0).len(),
        type_id_spec(comp_types_all(p.components, 0)[a]) == type_id_spec(
            comp_types_all(p.components, 0)[b],
        ),
        comp_types_all(p.components, 0)[a] != comp_types_all(p.components, 0)[b],
    ensures
        package_decl_spec(p) is None,
{
    let header = usings_decl_spec(p) + "package "@ + p.name + " is\n\n"@;
    lemma_conflict_kills_comps(Seq::empty(), header, p.components, a, b);
}

/// The inductive form of the conflict law, over the component fold.
proof fn lemma_conflict_kills_comps(
    seen: Seq<(Seq<char>, TypeV)>,
    out: Seq<char>,
    cs: Seq<ComponentV>,
    a: int,
    b: int,
)
    requires
        0 <= a < b < comp_types_all(cs, 0).len(),
        type_id_spec(comp_types_all(cs, 0)[a]) == type_id_spec(comp_types_all(cs, 0)[b]),
        comp_types_all(cs, 0)[a] != comp_types_all(cs, 0)[b],
    ensures
        pkg_comps_fold(seen, out, cs) is None,
    decreases cs,
{
    let all = comp_types_all(cs, 0);
    let ts = comp_types_spec(cs[0].ports, 0);
    lemma_comp_types_all_shift(cs);
    match pkg_types_fold(seen, out, ts) {
        None => {}
        Some((seen2, out2)) => {
            match component_decl_spec(cs[0]) {
                None => {}
                Some(cd) => {
                    if b < ts.len() {
                        lemma_types_fold_records(seen, out, ts);
                        assert(seen_lookup(seen2, type_id_spec(ts[a])) == Some(ts[a]));
                        assert(seen_lookup(seen2, type_id_spec(ts[b])) == Some(ts[b]));
                        assert(false);
                    } else if a < ts.len() {
                        lemma_types_fold_records(seen, out, ts);
                        assert(seen_lookup(seen2, type_id_spec(ts[a])) == Some(ts[a]));
                        assert(all[b] == comp_types_all(cs.skip(1), 0)[b - ts.len()]);
                        lemma_comps_fold_kills(
                            seen2,
                            out2 + cd + "\n\n"@,
                            cs.skip(1),
                            all[b],
                            all[a],
                        );
                    } else {
                        assert(all[a] == comp_types_all(cs.skip(1), 0)[a - ts.len()]);
                        assert(all[b] == comp_types_all(cs.skip(1), 0)[b - ts.len()]);
                        lemma_conflict_kills_comps(
                            seen2,
                            out2 + cd + "\n\n"@,
                            cs.skip(1),
                            a - ts.len(),
                            b - ts.len(),
                        );
                    }
                }
            }
        }
    }
}

} // verus!
