//! The common hardware representation: types, ports, components and
//! packages, built from logical types and rendered by the back-end.

use vstd::prelude::*;

verus! {

/// The direction of a port.
#[derive(Debug, Clone, Copy, PartialEq, Eq, Structural)]
pub enum Mode {
    /// Input.
    In,
    /// Output.
    Out,
}

impl Mode {
    /// The opposite direction.
    pub open spec fn reversed_spec(self) -> Mode {
        match self {
            Mode::In => Mode::Out,
            Mode::Out => Mode::In,
        }
    }

    /// The opposite direction.
    pub fn reversed(&self) -> (r: Mode)
        ensures
            r == self.reversed_spec(),
    {
        match self {
            Mode::In => Mode::Out,
            Mode::Out => Mode::In,
        }
    }
}

/// A type of the common representation.
#[derive(Debug, PartialEq)]
pub enum Type {
    /// A single wire.
    Bit,
    /// A non-negative integer, for parameters.
    Natural,
    /// A positive integer, for parameters.
    Positive,
    /// A vector of wires.
    BitVec { width: u32 },
    /// A bundle of named fields.
    Record(Record),
    /// A tagged union rendered as a record.
    Union(Record),
    /// A repetition of one element type.
    Array(Box<Array>),
}

/// A named field of a record, optionally flowing against the record's
/// direction.
#[derive(Debug, PartialEq)]
pub struct Field {
    pub name: String,
    pub typ: Type,
    pub reversed: bool,
    pub doc: Option<String>,
}

/// A named bundle of fields.
#[derive(Debug, PartialEq)]
pub struct Record {
    pub identifier: String,
    pub fields: Vec<Field>,
}

/// A named repetition of one element type.
#[derive(Debug, PartialEq)]
pub struct Array {
    pub identifier: String,
    pub typ: Type,
    pub width: u32,
}

/// A named, directioned, typed port.
#[derive(Debug, PartialEq)]
pub struct Port {
    pub identifier: String,
    pub mode: Mode,
    pub typ: Type,
    pub doc: Option<String>,
}

/// A named parameter of a component.
#[derive(Debug, PartialEq)]
pub struct Parameter {
    pub name: String,
    pub typ: Type,
}

/// A component declaration: a name, parameters and ports.
#[derive(Debug, PartialEq)]
pub struct Component {
    pub identifier: String,
    pub parameters: Vec<Parameter>,
    pub ports: Vec<Port>,
    pub doc: Option<String>,
}

/// A library package: a name and its components.
#[derive(Debug, PartialEq)]
pub struct Package {
    pub identifier: String,
    pub components: Vec<Component>,
}

/// A whole project: a name and its packages.
#[derive(Debug, PartialEq)]
pub struct Project {
    pub identifier: String,
    pub libraries: Vec<Package>,
}

// ---------------------------------------------------------------------------
// Views
// ---------------------------------------------------------------------------

/// The mathematical content of a type.
#[verifier::ext_equal]
pub ghost enum TypeV {
    Bit,
    Natural,
    Positive,
    BitVec(u32),
    Record(RecordV),
    Union(RecordV),
    Array(Box<ArrayV>),
}

#[verifier::ext_equal]
pub ghost struct FieldV {
    pub name: Seq<char>,
    pub typ: TypeV,
    pub reversed: bool,
    pub doc: Option<Seq<char>>,
}

#[verifier::ext_equal]
pub ghost struct RecordV {
    pub name: Seq<char>,
    pub fields: Seq<FieldV>,
}

#[verifier::ext_equal]
pub ghost struct ArrayV {
    pub name: Seq<char>,
    pub typ: TypeV,
    pub width: u32,
}

#[verifier::ext_equal]
pub ghost struct PortV {
    pub name: Seq<char>,
    pub mode: Mode,
    pub typ: TypeV,
    pub doc: Option<Seq<char>>,
}

#[verifier::ext_equal]
pub ghost struct ComponentV {
    pub name: Seq<char>,
    pub parameters: Seq<(Seq<char>, TypeV)>,
    pub ports: Seq<PortV>,
    pub doc: Option<Seq<char>>,
}

#[verifier::ext_equal]
pub ghost struct PackageV {
    pub name: Seq<char>,
    pub components: Seq<ComponentV>,
}

/// The view of a documentation option.
pub open spec fn doc_view(d: Option<String>) -> Option<Seq<char>> {
    match d {
        Some(s) => Some(s@),
        None => None,
    }
}

/// The view of a type.
pub open spec fn type_view(t: Type) -> TypeV
    decreases t,
{
    match t {
        Type::Bit => TypeV::Bit,
        Type::Natural => TypeV::Natural,
        Type::Positive => TypeV::Positive,
        Type::BitVec { width } => TypeV::BitVec(width),
        Type::Record(r) => TypeV::Record(record_view(r)),
        Type::Union(r) => TypeV::Union(record_view(r)),
        Type::Array(a) => TypeV::Array(
            Box::new(ArrayV { name: a.identifier@, typ: type_view(a.typ), width: a.width }),
        ),
    }
}

/// The view of a record.
pub open spec fn record_view(r: Record) -> RecordV
    decreases r,
{
    RecordV { name: r.identifier@, fields: fields_view(r.fields@) }
}

/// The view of a field list.
pub open spec fn fields_view(fs: Seq<Field>) -> Seq<FieldV>
    decreases fs,
{
    if fs.len() == 0 {
        Seq::empty()
    } else {
        seq![field_view(fs[0])] + fields_view(fs.skip(1))
    }
}

/// The view of a field.
pub open spec fn field_view(f: Field) -> FieldV
    decreases f,
{
    FieldV { name: f.name@, typ: type_view(f.typ), reversed: f.reversed, doc: doc_view(f.doc) }
}

impl View for Type {
    type V = TypeV;

    open spec fn view(&self) -> TypeV {
        type_view(*self)
    }
}

impl View for Record {
    type V = RecordV;

    open spec fn view(&self) -> RecordV {
        record_view(*self)
    }
}

impl View for Field {
    type V = FieldV;

    open spec fn view(&self) -> FieldV {
        field_view(*self)
    }
}

impl View for Array {
    type V = ArrayV;

    open spec fn view(&self) -> ArrayV {
        ArrayV { name: self.identifier@, typ: type_view(self.typ), width: self.width }
    }
}

impl View for Port {
    type V = PortV;

    open spec fn view(&self) -> PortV {
        PortV {
            name: self.identifier@,
            mode: self.mode,
            typ: type_view(self.typ),
            doc: doc_view(self.doc),
        }
    }
}

impl View for Component {
    type V = ComponentV;

    open spec fn view(&self) -> ComponentV {
        ComponentV {
            name: self.identifier@,
            parameters: self.parameters@.map_values(|p: Parameter| (p.name@, type_view(p.typ))),
            ports: self.ports@.map_values(|p: Port| p@),
            doc: doc_view(self.doc),
        }
    }
}

impl View for Package {
    type V = PackageV;

    open spec fn view(&self) -> PackageV {
        PackageV {
            name: self.identifier@,
            components: self.components@.map_values(|c: Component| c@),
        }
    }
}

/// Elementwise characterization of a field list's view.
pub proof fn lemma_fields_view(fs: Seq<Field>)
    ensures
        fields_view(fs).len() == fs.len(),
        forall|i: int| 0 <= i < fs.len() ==> #[trigger] fields_view(fs)[i] == field_view(fs[i]),
    decreases fs,
{
    if fs.len() > 0 {
        lemma_fields_view(fs.skip(1));
        assert forall|i: int| 0 <= i < fs.len() implies #[trigger] fields_view(fs)[i] == field_view(
            fs[i],
        ) by {
            if i > 0 {
                assert(fields_view(fs)[i] == fields_view(fs.skip(1))[i - 1]);
                assert(fs.skip(1)[i - 1] == fs[i]);
            }
        };
    }
}

// ---------------------------------------------------------------------------
// Reversed content
// ---------------------------------------------------------------------------

/// Whether any reachable field below the type is marked reversed.
pub open spec fn type_has_reversed(t: TypeV) -> bool
    decreases t,
{
    match t {
        TypeV::Record(r) => fields_have_reversed(r.fields),
        TypeV::Union(r) => fields_have_reversed(r.fields),
        TypeV::Array(a) => type_has_reversed(a.typ),
        _ => false,
    }
}

/// Whether a field list carries any reversed content.
pub open spec fn fields_have_reversed(fs: Seq<FieldV>) -> bool
    decreases fs,
{
    if fs.len() == 0 {
        false
    } else {
        (fs[0].reversed || type_has_reversed(fs[0].typ)) || fields_have_reversed(fs.skip(1))
    }
}

pub proof fn lemma_fields_have_reversed(fs: Seq<FieldV>)
    ensures
        fields_have_reversed(fs) <==> (exists|i: int|
            0 <= i < fs.len() && ((#[trigger] fs[i]).reversed || type_has_reversed(fs[i].typ))),
    decreases fs,
{
    if fs.len() > 0 {
        lemma_fields_have_reversed(fs.skip(1));
        if fs[0].reversed || type_has_reversed(fs[0].typ) {
        } else if fields_have_reversed(fs.skip(1)) {
            let i = choose|i: int|
                0 <= i < fs.skip(1).len() && ((#[trigger] fs.skip(1)[i]).reversed
                    || type_has_reversed(fs.skip(1)[i].typ));
            assert(fs.skip(1)[i] == fs[i + 1]);
            assert(fs[i + 1].reversed || type_has_reversed(fs[i + 1].typ));
        } else {
            if exists|i: int|
                0 <= i < fs.len() && ((#[trigger] fs[i]).reversed || type_has_reversed(
                    fs[i].typ,
                )) {
                let i = choose|i: int|
                    0 <= i < fs.len() && ((#[trigger] fs[i]).reversed || type_has_reversed(
                        fs[i].typ,
                    ));
                if i > 0 {
                    assert(fs.skip(1)[i - 1] == fs[i]);
                }
            }
        }
    }
}

impl Type {
    /// A bit vector type of the given width.
    pub fn bitvec(width: u32) -> (r: Type)
        ensures
            r@ == TypeV::BitVec(width),
    {
        Type::BitVec { width }
    }

    /// A record type with the given name and fields.
    pub fn record(name: &str, fields: Vec<Field>) -> (r: Type)
        ensures
            r@ == TypeV::Record(RecordV { name: name@, fields: fields_view(fields@) }),
    {
        let ghost fv = fields_view(fields@);
        let rec = Record { identifier: String::from_str(name), fields };
        proof {
            assert(rec@.name =~= name@);
            assert(rec@.fields =~= fv);
        }
        let r = Type::Record(rec);
        proof {
            assert(r@ =~= TypeV::Record(RecordV { name: name@, fields: fv }));
        }
        r
    }

    /// A union type with the given name and fields.
    pub fn union_of(name: &str, fields: Vec<Field>) -> (r: Type)
        ensures
            r@ == TypeV::Union(RecordV { name: name@, fields: fields_view(fields@) }),
    {
        let ghost fv = fields_view(fields@);
        let rec = Record { identifier: String::from_str(name), fields };
        proof {
            assert(rec@.name =~= name@);
            assert(rec@.fields =~= fv);
        }
        let r = Type::Union(rec);
        proof {
            assert(r@ =~= TypeV::Union(RecordV { name: name@, fields: fv }));
        }
        r
    }

    /// An array type with the given name, element type and length.
    pub fn array(name: &str, typ: Type, width: u32) -> (r: Type)
        ensures
            r@ == TypeV::Array(Box::new(ArrayV { name: name@, typ: typ@, width })),
    {
        Type::Array(Box::new(Array { identifier: String::from_str(name), typ, width }))
    }

    /// Whether any reachable field below this type is marked reversed.
    pub fn has_reversed(&self) -> (r: bool)
        ensures
            r == type_has_reversed(self@),
        decreases self,
    {
        match self {
            Type::Record(rec) => rec.has_reversed(),
            Type::Union(rec) => rec.has_reversed(),
            Type::Array(a) => a.typ.has_reversed(),
            _ => false,
        }
    }
}

impl Clone for Type {
    fn clone(&self) -> (r: Self)
        ensures
            r@ == self@,
        decreases self,
    {
        match self {
            Type::Bit => Type::Bit,
            Type::Natural => Type::Natural,
            Type::Positive => Type::Positive,
            Type::BitVec { width } => Type::BitVec { width: *width },
            Type::Record(r) => Type::Record(r.clone()),
            Type::Union(r) => Type::Union(r.clone()),
            Type::Array(a) => Type::Array(
                Box::new(
                    Array {
                        identifier: a.identifier.clone(),
                        typ: a.typ.clone(),
                        width: a.width,
                    },
                ),
            ),
        }
    }
}

impl Clone for Field {
    fn clone(&self) -> (r: Self)
        ensures
            r@ == self@,
        decreases self,
    {
        Field {
            name: self.name.clone(),
            typ: self.typ.clone(),
            reversed: self.reversed,
            doc: match &self.doc {
                Some(d) => Some(d.clone()),
                None => None,
            },
        }
    }
}

impl Clone for Record {
    fn clone(&self) -> (r: Self)
        ensures
            r@ == self@,
        decreases self,
    {
        let mut fields: Vec<Field> = Vec::new();
        let mut i: usize = 0;
        while i < self.fields.len()
            invariant
                i <= self.fields@.len(),
                fields@.len() == i,
                forall|j: int| 0 <= j < i ==> (#[trigger] fields@[j])@ == self.fields@[j]@,
            decreases self.fields@.len() - i,
        {
            let f = self.fields[i].clone();
            fields.push(f);
            i = i + 1;
        }
        proof {
            lemma_fields_view(fields@);
            lemma_fields_view(self.fields@);
            assert(fields_view(fields@) =~= fields_view(self.fields@));
        }
        Record { identifier: self.identifier.clone(), fields }
    }
}

impl Clone for Port {
    fn clone(&self) -> (r: Self)
        ensures
            r@ == self@,
    {
        Port {
            identifier: self.identifier.clone(),
            mode: self.mode,
            typ: self.typ.clone(),
            doc: match &self.doc {
                Some(d) => Some(d.clone()),
                None => None,
            },
        }
    }
}

impl Field {
    /// Builds a field.
    pub fn new(name: &str, typ: Type, reversed: bool, doc: Option<String>) -> (r: Field)
        ensures
            r@ == (FieldV { name: name@, typ: typ@, reversed, doc: doc_view(doc) }),
    {
        Field { name: String::from_str(name), typ, reversed, doc }
    }

    /// The name of the field.
    pub fn identifier(&self) -> (r: &str)
        ensures
            r@ == self@.name,
    {
        self.name.as_str()
    }

    /// The type of the field.
    pub fn typ(&self) -> (r: &Type)
        ensures
            r@ == self@.typ,
    {
        &self.typ
    }

    /// Whether the field flows against the record's direction.
    pub fn is_reversed(&self) -> (r: bool)
        ensures
            r == self@.reversed,
    {
        self.reversed
    }

    /// The documentation of the field, if any.
    pub fn doc(&self) -> (r: &Option<String>)
        ensures
            doc_view(*r) == self@.doc,
    {
        &self.doc
    }

    /// This field with its direction flag flipped.
    pub fn reversed(&self) -> (r: Field)
        ensures
            r@ == (FieldV {
                name: self@.name,
                typ: self@.typ,
                reversed: !self@.reversed,
                doc: self@.doc,
            }),
    {
        Field {
            name: self.name.clone(),
            typ: self.typ.clone(),
            reversed: !self.reversed,
            doc: match &self.doc {
                Some(d) => Some(d.clone()),
                None => None,
            },
        }
    }
}

impl Record {
    /// An empty record with the given name.
    pub fn new_empty(name: &str) -> (r: Record)
        ensures
            r@ == (RecordV { name: name@, fields: Seq::empty() }),
    {
        let r = Record { identifier: String::from_str(name), fields: Vec::new() };
        proof {
            assert(r@.fields =~= Seq::<FieldV>::empty());
        }
        r
    }

    /// A record with the given name and fields.
    pub fn new(name: &str, fields: Vec<Field>) -> (r: Record)
        ensures
            r@ == (RecordV { name: name@, fields: fields_view(fields@) }),
    {
        Record { identifier: String::from_str(name), fields }
    }

    /// An empty stream record: `valid` forward and `ready` reversed.
    pub fn new_empty_stream(name: &str) -> (r: Record)
        ensures
            r@ == (RecordV {
                name: name@,
                fields: seq![
                    FieldV { name: "valid"@, typ: TypeV::Bit, reversed: false, doc: None },
                    FieldV { name: "ready"@, typ: TypeV::Bit, reversed: true, doc: None },
                ],
            }),
    {
        let mut fields: Vec<Field> = Vec::new();
        fields.push(Field::new("valid", Type::Bit, false, None));
        fields.push(Field::new("ready", Type::Bit, true, None));
        let r = Record { identifier: String::from_str(name), fields };
        proof {
            lemma_fields_view(r.fields@);
            assert(r@.fields =~= seq![
                FieldV { name: "valid"@, typ: TypeV::Bit, reversed: false, doc: None },
                FieldV { name: "ready"@, typ: TypeV::Bit, reversed: true, doc: None },
            ]);
        }
        r
    }

    /// Appends a field.
    pub fn insert(&mut self, field: Field)
        ensures
            final(self)@ == (RecordV {
                name: old(self)@.name,
                fields: old(self)@.fields.push(field@),
            }),
    {
        let ghost fv = field@;
        self.fields.push(field);
        proof {
            lemma_fields_view(self.fields@);
            lemma_fields_view(old(self).fields@);
            assert(fields_view(self.fields@) =~= fields_view(old(self).fields@).push(fv));
        }
    }

    /// Appends a new field built from its parts.
    pub fn insert_new_field(&mut self, name: &str, typ: Type, reversed: bool, doc: Option<String>)
        ensures
            final(self)@ == (RecordV {
                name: old(self)@.name,
                fields: old(self)@.fields.push(
                    FieldV { name: name@, typ: typ@, reversed, doc: doc_view(doc) },
                ),
            }),
    {
        self.insert(Field::new(name, typ, reversed, doc));
    }

    /// The name of the record.
    pub fn identifier(&self) -> (r: &str)
        ensures
            r@ == self@.name,
    {
        self.identifier.as_str()
    }

    /// The fields, in declaration order.
    pub fn fields(&self) -> (r: &Vec<Field>)
        ensures
            r@.len() == self@.fields.len(),
            forall|i: int| 0 <= i < r@.len() ==> (#[trigger] r@[i])@ == self@.fields[i],
    {
        proof {
            lemma_fields_view(self.fields@);
        }
        &self.fields
    }

    /// Whether the record has no fields.
    pub fn is_empty(&self) -> (r: bool)
        ensures
            r == (self@.fields.len() == 0),
    {
        proof {
            lemma_fields_view(self.fields@);
        }
        self.fields.len() == 0
    }

    /// Whether any reachable field is marked reversed.
    pub fn has_reversed(&self) -> (r: bool)
        ensures
            r == fields_have_reversed(self@.fields),
        decreases self,
    {
        proof {
            lemma_fields_view(self.fields@);
            lemma_fields_have_reversed(fields_view(self.fields@));
        }
        let mut i: usize = 0;
        while i < self.fields.len()
            invariant
                i <= self.fields@.len(),
                fields_view(self.fields@).len() == self.fields@.len(),
                forall|j: int|
                    0 <= j < self.fields@.len() ==> #[trigger] fields_view(self.fields@)[j]
                        == field_view(self.fields@[j]),
                forall|j: int|
                    0 <= j < i ==> !((#[trigger] fields_view(self.fields@)[j]).reversed
                        || type_has_reversed(fields_view(self.fields@)[j].typ)),
            decreases self.fields@.len() - i,
        {
            if self.fields[i].is_reversed() || self.fields[i].typ.has_reversed() {
                proof {
                    lemma_fields_have_reversed(fields_view(self.fields@));
                    assert((fields_view(self.fields@)[i as int]).reversed || type_has_reversed(
                        fields_view(self.fields@)[i as int].typ,
                    ));
                }
                return true;
            }
            i = i + 1;
        }
        proof {
            lemma_fields_have_reversed(fields_view(self.fields@));
        }
        false
    }
}

impl Array {
    /// Builds an array type.
    pub fn new(name: &str, typ: Type, width: u32) -> (r: Array)
        ensures
            r@ == (ArrayV { name: name@, typ: typ@, width }),
    {
        Array { identifier: String::from_str(name), typ, width }
    }

    /// The name of the array.
    pub fn identifier(&self) -> (r: &str)
        ensures
            r@ == self@.name,
    {
        self.identifier.as_str()
    }

    /// The element type.
    pub fn typ(&self) -> (r: &Type)
        ensures
            r@ == self@.typ,
    {
        &self.typ
    }

    /// The number of elements.
    pub fn width(&self) -> (r: u32)
        ensures
            r == self@.width,
    {
        self.width
    }
}

impl Port {
    /// Builds a port.
    pub fn new(name: &str, mode: Mode, typ: Type) -> (r: Port)
        ensures
            r@ == (PortV { name: name@, mode, typ: typ@, doc: None }),
    {
        Port { identifier: String::from_str(name), mode, typ, doc: None }
    }

    /// Builds a port with documentation.
    pub fn new_documented(name: &str, mode: Mode, typ: Type, doc: Option<String>) -> (r: Port)
        ensures
            r@ == (PortV { name: name@, mode, typ: typ@, doc: doc_view(doc) }),
    {
        Port { identifier: String::from_str(name), mode, typ, doc }
    }

    /// The name of the port.
    pub fn identifier(&self) -> (r: &str)
        ensures
            r@ == self@.name,
    {
        self.identifier.as_str()
    }

    /// The direction of the port.
    pub fn mode(&self) -> (r: Mode)
        ensures
            r == self@.mode,
    {
        self.mode
    }

    /// The type of the port.
    pub fn typ(&self) -> (r: &Type)
        ensures
            r@ == self@.typ,
    {
        &self.typ
    }

    /// The documentation of the port, if any.
    pub fn doc(&self) -> (r: &Option<String>)
        ensures
            doc_view(*r) == self@.doc,
    {
        &self.doc
    }

    /// Whether the port's type mixes directions.
    pub fn has_reversed(&self) -> (r: bool)
        ensures
            r == type_has_reversed(self@.typ),
    {
        self.typ.has_reversed()
    }
}

impl Component {
    /// Builds a component.
    pub fn new(name: &str, parameters: Vec<Parameter>, ports: Vec<Port>, doc: Option<String>) -> (r:
        Component)
        ensures
            r@ == (ComponentV {
                name: name@,
                parameters: parameters@.map_values(|p: Parameter| (p.name@, type_view(p.typ))),
                ports: ports@.map_values(|p: Port| p@),
                doc: doc_view(doc),
            }),
    {
        Component { identifier: String::from_str(name), parameters, ports, doc }
    }

    /// The name of the component.
    pub fn identifier(&self) -> (r: &str)
        ensures
            r@ == self@.name,
    {
        self.identifier.as_str()
    }

    /// The ports, in declaration order.
    pub fn ports(&self) -> (r: &Vec<Port>)
        ensures
            r@.map_values(|p: Port| p@) == self@.ports,
    {
        &self.ports
    }

    /// The parameters, in declaration order.
    pub fn parameters(&self) -> (r: &Vec<Parameter>)
        ensures
            r@.map_values(|p: Parameter| (p.name@, type_view(p.typ))) == self@.parameters,
    {
        &self.parameters
    }

    /// This component with documentation added.
    pub fn with_doc(self, doc: String) -> (r: Component)
        ensures
            r@ == (ComponentV {
                name: self@.name,
                parameters: self@.parameters,
                ports: self@.ports,
                doc: Some(doc@),
            }),
    {
        Component {
            identifier: self.identifier,
            parameters: self.parameters,
            ports: self.ports,
            doc: Some(doc),
        }
    }

    /// The documentation of the component, if any.
    pub fn doc(&self) -> (r: &Option<String>)
        ensures
            doc_view(*r) == self@.doc,
    {
        &self.doc
    }
}

} // verus!
