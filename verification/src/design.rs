//! The input description consumed by the generators: streamlets with typed,
//! directioned interfaces, grouped into libraries and projects.

use vstd::prelude::*;

use crate::logical::{synthesize_ok, LogicalType, LogicalTypeV};
use crate::{Error, Name};

verus! {

/// The direction of an interface, seen from its streamlet.
#[derive(Debug, Clone, Copy, PartialEq, Eq, Structural)]
pub enum Mode {
    /// The streamlet consumes data over the interface.
    In,
    /// The streamlet produces data over the interface.
    Out,
}

/// A reference to a streamlet within a project: a library name and a
/// streamlet name.
#[derive(Debug, PartialEq)]
pub struct StreamletHandle {
    pub lib: Name,
    pub streamlet: Name,
}

impl Clone for StreamletHandle {
    fn clone(&self) -> (r: Self)
        ensures
            r.lib@ == self.lib@,
            r.streamlet@ == self.streamlet@,
    {
        StreamletHandle { lib: self.lib.clone(), streamlet: self.streamlet.clone() }
    }
}

/// A typed, directioned port of a streamlet.
#[derive(Debug)]
pub struct Interface {
    name: Name,
    mode: Mode,
    typ: LogicalType,
    doc: Option<String>,
}

impl Interface {
    #[verifier::type_invariant]
    spec fn inv(self) -> bool {
        synthesize_ok(self.typ@)
    }

    /// The name of this interface.
    pub closed spec fn name_spec(&self) -> Seq<char> {
        self.name@
    }

    /// The mode of this interface.
    pub closed spec fn mode_spec(&self) -> Mode {
        self.mode
    }

    /// The logical type of this interface.
    pub closed spec fn typ_spec(&self) -> LogicalTypeV {
        self.typ@
    }

    /// Builds an interface. Returns an error when the name is invalid or
    /// the type does not synthesize.
    pub fn try_new(name: &str, mode: Mode, typ: LogicalType, doc: Option<String>) -> (r: Result<
        Interface,
        Error,
    >)
        ensures
            r is Ok <==> crate::valid_name(name@) && synthesize_ok(typ@),
            r is Ok ==> r->Ok_0.name_spec() == name@ && r->Ok_0.mode_spec() == mode
                && r->Ok_0.typ_spec() == typ@,
    {
        let n = match Name::try_new(name) {
            Ok(n) => n,
            Err(e) => {
                return Err(e);
            }
        };
        match typ.synthesize() {
            Ok(_) => Ok(Interface { name: n, mode, typ, doc }),
            Err(e) => Err(e),
        }
    }

    /// The name of this interface.
    pub fn name(&self) -> (r: &Name)
        ensures
            r@ == self.name_spec(),
    {
        &self.name
    }

    /// The name of this interface, as a string slice.
    pub fn identifier(&self) -> (r: &str)
        ensures
            r@ == self.name_spec(),
    {
        self.name.as_str()
    }

    /// The mode of this interface.
    pub fn mode(&self) -> (r: Mode)
        ensures
            r == self.mode_spec(),
    {
        self.mode
    }

    /// The logical type of this interface.
    pub fn typ(&self) -> (r: &LogicalType)
        ensures
            r@ == self.typ_spec(),
            synthesize_ok(r@),
    {
        proof {
            use_type_invariant(self);
        }
        &self.typ
    }

    /// The documentation of this interface, if any.
    pub closed spec fn doc_spec(&self) -> Option<Seq<char>> {
        match self.doc {
            Some(d) => Some(d@),
            None => None,
        }
    }

    /// The documentation of this interface, if any.
    pub fn doc(&self) -> (r: &Option<String>)
        ensures
            r is Some <==> self.doc_spec() is Some,
            r is Some ==> r->0@ == self.doc_spec()->0,
    {
        &self.doc
    }
}

impl Clone for Interface {
    fn clone(&self) -> (r: Self)
        ensures
            r.name_spec() == self.name_spec(),
            r.mode_spec() == self.mode_spec(),
            r.typ_spec() == self.typ_spec(),
    {
        proof {
            use_type_invariant(self);
        }
        Interface {
            name: self.name.clone(),
            mode: self.mode,
            typ: self.typ.clone(),
            doc: match &self.doc {
                Some(d) => Some(d.clone()),
                None => None,
            },
        }
    }
}

/// Whether interface names are pairwise distinct.
pub open spec fn unique_interface_names(ifaces: Seq<Interface>) -> bool {
    forall|i: int, j: int|
        0 <= i < j < ifaces.len() ==> (#[trigger] ifaces[i]).name_spec() != (
        #[trigger] ifaces[j]).name_spec()
}

/// How a streamlet is implemented, when an implementation has been attached:
/// a reference to a backend that will produce its body.
#[derive(Debug)]
pub enum Implementation {
    /// Implemented by a named backend for the given streamlet.
    Backend { name: Name, streamlet: StreamletHandle },
}

impl Clone for Implementation {
    fn clone(&self) -> (r: Self)
        ensures
            (match (r, self) {
                (
                    Implementation::Backend { name: rn, streamlet: rs },
                    Implementation::Backend { name: sn, streamlet: ss },
                ) => rn@ == sn@ && rs.lib@ == ss.lib@ && rs.streamlet@ == ss.streamlet@,
            }),
    {
        match self {
            Implementation::Backend { name, streamlet } => Implementation::Backend {
                name: name.clone(),
                streamlet: streamlet.clone(),
            },
        }
    }
}

/// A named hardware component description with typed interfaces.
#[derive(Debug)]
pub struct Streamlet {
    name: Name,
    interfaces: Vec<Interface>,
    doc: Option<String>,
    implementation: Option<Implementation>,
}

impl Streamlet {
    #[verifier::type_invariant]
    spec fn inv(self) -> bool {
        unique_interface_names(self.interfaces@)
    }

    /// The name of this streamlet.
    pub closed spec fn name_spec(&self) -> Seq<char> {
        self.name@
    }

    /// The interfaces of this streamlet.
    pub closed spec fn interfaces_spec(&self) -> Seq<Interface> {
        self.interfaces@
    }

    /// Builds a streamlet from uniquely named interfaces. Returns an error
    /// when two interfaces share a name.
    pub fn from_builder(name: Name, interfaces: Vec<Interface>, doc: Option<String>) -> (r: Result<
        Streamlet,
        Error,
    >)
        ensures
            r is Ok <==> unique_interface_names(interfaces@),
            r is Ok ==> r->Ok_0.name_spec() == name@ && r->Ok_0.interfaces_spec() == interfaces@,
            r is Err ==> r->Err_0 is UnexpectedDuplicate,
    {
        let mut i: usize = 0;
        while i < interfaces.len()
            invariant
                i <= interfaces@.len(),
                forall|p: int, q: int|
                    0 <= p < q < i ==> (#[trigger] interfaces@[p]).name_spec() != (
                    #[trigger] interfaces@[q]).name_spec(),
            decreases interfaces@.len() - i,
        {
            let mut j: usize = 0;
            while j < i
                invariant
                    j <= i,
                    i < interfaces@.len(),
                    forall|p: int|
                        0 <= p < j ==> (#[trigger] interfaces@[p]).name_spec()
                            != interfaces@[i as int].name_spec(),
                decreases i - j,
            {
                if interfaces[j].name().same(interfaces[i].name()) {
                    return Err(Error::UnexpectedDuplicate);
                }
                j = j + 1;
            }
            i = i + 1;
        }
        Ok(Streamlet { name, interfaces, doc, implementation: None })
    }

    /// Whether an implementation has been attached.
    pub closed spec fn has_implementation(&self) -> bool {
        self.implementation is Some
    }

    /// Attaches an implementation. Returns an error when one is already
    /// attached.
    pub fn attach_implementation(&mut self, imp: Implementation) -> (r: Result<(), Error>)
        ensures
            r is Ok <==> !old(self).has_implementation(),
            final(self).has_implementation(),
            final(self).name_spec() == old(self).name_spec(),
            final(self).interfaces_spec() == old(self).interfaces_spec(),
            r is Err ==> r->Err_0 is ComposerError,
    {
        proof {
            use_type_invariant(&*self);
        }
        if self.implementation.is_some() {
            return Err(
                Error::ComposerError(String::from_str("an implementation is already attached")),
            );
        }
        self.implementation = Some(imp);
        Ok(())
    }

    /// The name of this streamlet.
    pub fn name(&self) -> (r: &Name)
        ensures
            r@ == self.name_spec(),
    {
        &self.name
    }

    /// The name of this streamlet, as a string slice.
    pub fn identifier(&self) -> (r: &str)
        ensures
            r@ == self.name_spec(),
    {
        self.name.as_str()
    }

    /// The interfaces of this streamlet, in declaration order; their names
    /// are pairwise distinct.
    pub fn interfaces(&self) -> (r: &Vec<Interface>)
        ensures
            r@ == self.interfaces_spec(),
            unique_interface_names(self.interfaces_spec()),
    {
        proof {
            use_type_invariant(self);
        }
        &self.interfaces
    }

    /// The documentation of this streamlet, if any.
    pub closed spec fn doc_spec(&self) -> Option<Seq<char>> {
        match self.doc {
            Some(d) => Some(d@),
            None => None,
        }
    }

    /// The documentation of this streamlet, if any.
    pub fn doc(&self) -> (r: &Option<String>)
        ensures
            r is Some <==> self.doc_spec() is Some,
            r is Some ==> r->0@ == self.doc_spec()->0,
    {
        &self.doc
    }
}

impl Clone for Streamlet {
    fn clone(&self) -> (r: Self)
        ensures
            r.name_spec() == self.name_spec(),
            r.interfaces_spec().len() == self.interfaces_spec().len(),
            forall|i: int|
                0 <= i < self.interfaces_spec().len() ==> (#[trigger] r.interfaces_spec()[i])
                    .name_spec() == self.interfaces_spec()[i].name_spec()
                    && r.interfaces_spec()[i].mode_spec() == self.interfaces_spec()[i].mode_spec()
                    && r.interfaces_spec()[i].typ_spec() == self.interfaces_spec()[i].typ_spec(),
    {
        proof {
            use_type_invariant(self);
        }
        let mut interfaces: Vec<Interface> = Vec::new();
        let mut i: usize = 0;
        while i < self.interfaces.len()
            invariant
                unique_interface_names(self.interfaces@),
                i <= self.interfaces@.len(),
                interfaces@.len() == i,
                forall|j: int|
                    0 <= j < i ==> (#[trigger] interfaces@[j]).name_spec()
                        == self.interfaces@[j].name_spec() && interfaces@[j].mode_spec()
                        == self.interfaces@[j].mode_spec() && interfaces@[j].typ_spec()
                        == self.interfaces@[j].typ_spec(),
            decreases self.interfaces@.len() - i,
        {
            let cloned = self.interfaces[i].clone();
            interfaces.push(cloned);
            i = i + 1;
        }
        Streamlet {
            name: self.name.clone(),
            interfaces,
            doc: match &self.doc {
                Some(d) => Some(d.clone()),
                None => None,
            },
            implementation: match &self.implementation {
                Some(imp) => Some(imp.clone()),
                None => None,
            },
        }
    }
}

/// Whether streamlet names are pairwise distinct.
pub open spec fn unique_streamlet_names(ss: Seq<Streamlet>) -> bool {
    forall|i: int, j: int|
        0 <= i < j < ss.len() ==> (#[trigger] ss[i]).name_spec() != (#[trigger] ss[j]).name_spec()
}

/// A named, ordered collection of uniquely named streamlets.
#[derive(Debug)]
pub struct Library {
    name: Name,
    streamlets: Vec<Streamlet>,
}

impl Library {
    #[verifier::type_invariant]
    spec fn inv(self) -> bool {
        unique_streamlet_names(self.streamlets@)
    }

    /// The name of this library.
    pub closed spec fn name_spec(&self) -> Seq<char> {
        self.name@
    }

    /// The streamlets of this library.
    pub closed spec fn streamlets_spec(&self) -> Seq<Streamlet> {
        self.streamlets@
    }

    /// Builds a library from uniquely named streamlets. Returns an error
    /// when two streamlets share a name.
    pub fn try_new(name: Name, streamlets: Vec<Streamlet>) -> (r: Result<Library, Error>)
        ensures
            r is Ok <==> unique_streamlet_names(streamlets@),
            r is Ok ==> r->Ok_0.name_spec() == name@ && r->Ok_0.streamlets_spec() == streamlets@,
            r is Err ==> r->Err_0 is UnexpectedDuplicate,
    {
        let mut i: usize = 0;
        while i < streamlets.len()
            invariant
                i <= streamlets@.len(),
                forall|p: int, q: int|
                    0 <= p < q < i ==> (#[trigger] streamlets@[p]).name_spec() != (
                    #[trigger] streamlets@[q]).name_spec(),
            decreases streamlets@.len() - i,
        {
            let mut j: usize = 0;
            while j < i
                invariant
                    j <= i,
                    i < streamlets@.len(),
                    forall|p: int|
                        0 <= p < j ==> (#[trigger] streamlets@[p]).name_spec()
                            != streamlets@[i as int].name_spec(),
                decreases i - j,
            {
                if streamlets[j].name().same(streamlets[i].name()) {
                    return Err(Error::UnexpectedDuplicate);
                }
                j = j + 1;
            }
            i = i + 1;
        }
        Ok(Library { name, streamlets })
    }

    /// The name of this library.
    pub fn name(&self) -> (r: &Name)
        ensures
            r@ == self.name_spec(),
    {
        &self.name
    }

    /// The name of this library, as a string slice.
    pub fn identifier(&self) -> (r: &str)
        ensures
            r@ == self.name_spec(),
    {
        self.name.as_str()
    }

    /// The streamlets of this library, in declaration order.
    pub fn streamlets(&self) -> (r: &Vec<Streamlet>)
        ensures
            r@ == self.streamlets_spec(),
    {
        &self.streamlets
    }

    /// Looks a streamlet up by name.
    pub fn get_streamlet(&self, name: &Name) -> (r: Result<&Streamlet, Error>)
        ensures
            r is Ok ==> r->Ok_0.name_spec() == name@ && (exists|i: int|
                0 <= i < self.streamlets_spec().len() && (#[trigger] self.streamlets_spec()[i])
                    .name_spec() == name@ && r->Ok_0.interfaces_spec()
                    == self.streamlets_spec()[i].interfaces_spec()),
            r is Err <==> !(exists|i: int|
                0 <= i < self.streamlets_spec().len() && (#[trigger] self.streamlets_spec()[i])
                    .name_spec() == name@),
            r is Err ==> r->Err_0 is InvalidArgument,
    {
        let mut i: usize = 0;
        while i < self.streamlets.len()
            invariant
                i <= self.streamlets@.len(),
                forall|j: int|
                    0 <= j < i ==> (#[trigger] self.streamlets@[j]).name_spec() != name@,
            decreases self.streamlets@.len() - i,
        {
            if self.streamlets[i].name().same(name) {
                proof {
                    assert((#[trigger] self.streamlets_spec()[i as int]).name_spec() == name@
                        && self.streamlets@[i as int].interfaces_spec()
                        == self.streamlets_spec()[i as int].interfaces_spec());
                }
                return Ok(&self.streamlets[i]);
            }
            i = i + 1;
        }
        Err(Error::InvalidArgument(String::from_str("no streamlet with this name")))
    }
}

/// Whether library names are pairwise distinct.
pub open spec fn unique_library_names(ls: Seq<Library>) -> bool {
    forall|i: int, j: int|
        0 <= i < j < ls.len() ==> (#[trigger] ls[i]).name_spec() != (#[trigger] ls[j]).name_spec()
}

/// A named, ordered collection of uniquely named libraries.
#[derive(Debug)]
pub struct Project {
    name: Name,
    libraries: Vec<Library>,
}

impl Project {
    #[verifier::type_invariant]
    spec fn inv(self) -> bool {
        unique_library_names(self.libraries@)
    }

    /// The name of this project.
    pub closed spec fn name_spec(&self) -> Seq<char> {
        self.name@
    }

    /// The libraries of this project.
    pub closed spec fn libraries_spec(&self) -> Seq<Library> {
        self.libraries@
    }

    /// Builds a project from uniquely named libraries. Returns an error
    /// when two libraries share a name.
    pub fn from_builder(name: Name, libraries: Vec<Library>) -> (r: Result<Project, Error>)
        ensures
            r is Ok <==> unique_library_names(libraries@),
            r is Ok ==> r->Ok_0.name_spec() == name@ && r->Ok_0.libraries_spec() == libraries@,
            r is Err ==> r->Err_0 is UnexpectedDuplicate,
    {
        let mut i: usize = 0;
        while i < libraries.len()
            invariant
                i <= libraries@.len(),
                forall|p: int, q: int|
                    0 <= p < q < i ==> (#[trigger] libraries@[p]).name_spec() != (
                    #[trigger] libraries@[q]).name_spec(),
            decreases libraries@.len() - i,
        {
            let mut j: usize = 0;
            while j < i
                invariant
                    j <= i,
                    i < libraries@.len(),
                    forall|p: int|
                        0 <= p < j ==> (#[trigger] libraries@[p]).name_spec()
                            != libraries@[i as int].name_spec(),
                decreases i - j,
            {
                if libraries[j].name().same(libraries[i].name()) {
                    return Err(Error::UnexpectedDuplicate);
                }
                j = j + 1;
            }
            i = i + 1;
        }
        Ok(Project { name, libraries })
    }

    /// The name of this project.
    pub fn name(&self) -> (r: &Name)
        ensures
            r@ == self.name_spec(),
    {
        &self.name
    }

    /// The name of this project, as a string slice.
    pub fn identifier(&self) -> (r: &str)
        ensures
            r@ == self.name_spec(),
    {
        self.name.as_str()
    }

    /// The libraries of this project, in declaration order.
    pub fn libraries(&self) -> (r: &Vec<Library>)
        ensures
            r@ == self.libraries_spec(),
    {
        &self.libraries
    }

    /// Looks a library up by name.
    pub fn get_lib(&self, name: &Name) -> (r: Result<&Library, Error>)
        ensures
            r is Ok ==> r->Ok_0.name_spec() == name@ && (exists|i: int|
                0 <= i < self.libraries_spec().len() && (#[trigger] self.libraries_spec()[i])
                    .name_spec() == name@ && r->Ok_0.streamlets_spec()
                    == self.libraries_spec()[i].streamlets_spec()),
            r is Err <==> !(exists|i: int|
                0 <= i < self.libraries_spec().len() && (#[trigger] self.libraries_spec()[i])
                    .name_spec() == name@),
            r is Err ==> r->Err_0 is InvalidArgument,
    {
        let mut i: usize = 0;
        while i < self.libraries.len()
            invariant
                i <= self.libraries@.len(),
                forall|j: int| 0 <= j < i ==> (#[trigger] self.libraries@[j]).name_spec() != name@,
            decreases self.libraries@.len() - i,
        {
            if self.libraries[i].name().same(name) {
                proof {
                    assert((#[trigger] self.libraries_spec()[i as int]).name_spec() == name@
                        && self.libraries@[i as int].streamlets_spec()
                        == self.libraries_spec()[i as int].streamlets_spec());
                }
                return Ok(&self.libraries[i]);
            }
            i = i + 1;
        }
        Err(Error::InvalidArgument(String::from_str("no library with this name")))
    }
}

} // verus!
