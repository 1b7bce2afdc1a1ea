//! A library for working with streaming hardware interface types: logical
//! stream types, their synthesis into bit-exact physical streams, a common
//! hardware representation built from them, and a VHDL back-end that renders
//! that representation as package declarations.

use vstd::prelude::*;

pub mod util;
pub mod physical;
pub mod logical;
pub mod design;
pub mod common;
pub mod vhdl;
pub mod convert;
pub mod stdlib;

verus! {

/// The error taxonomy of the whole pipeline.
#[derive(Debug, Clone, PartialEq)]
pub enum Error {
    /// A malformed numeric or textual parameter.
    InvalidArgument(String),
    /// A duplicate name was inserted into a uniqueness-checked map.
    UnexpectedDuplicate,
    /// A failure while declaring a package (for instance a type-name conflict).
    BackEndError(String),
    /// An assignment or selection against an incompatible type.
    InvalidTarget(String),
    /// A composition-level failure, such as a stub without any stream.
    ComposerError(String),
}

impl Error {
    /// A human-readable description of the error.
    pub fn message(&self) -> (r: String)
        ensures
            r@ == self.message_spec(),
    {
        match self {
            Error::InvalidArgument(s) => {
                let mut m = String::from_str("Invalid argument: ");
                m.append(s.as_str());
                m
            }
            Error::UnexpectedDuplicate => String::from_str("Unexpected duplicate"),
            Error::BackEndError(s) => {
                let mut m = String::from_str("Back-end error: ");
                m.append(s.as_str());
                m
            }
            Error::InvalidTarget(s) => {
                let mut m = String::from_str("Invalid target: ");
                m.append(s.as_str());
                m
            }
            Error::ComposerError(s) => {
                let mut m = String::from_str("Composer error: ");
                m.append(s.as_str());
                m
            }
        }
    }

    pub open spec fn message_spec(&self) -> Seq<char> {
        match self {
            Error::InvalidArgument(s) => "Invalid argument: "@ + s@,
            Error::UnexpectedDuplicate => "Unexpected duplicate"@,
            Error::BackEndError(s) => "Back-end error: "@ + s@,
            Error::InvalidTarget(s) => "Invalid target: "@ + s@,
            Error::ComposerError(s) => "Composer error: "@ + s@,
        }
    }
}

/// Positive integer: a number of bits, lanes, or similar that can never be zero.
#[derive(Debug, Clone, Copy, PartialEq, Eq, Hash)]
pub struct Positive {
    v: u32,
}

/// Positive number of bits.
pub type BitCount = Positive;

/// Non-negative integer.
pub type NonNegative = u32;

/// Natural integer as defined by VHDL.
pub type Natural = NonNegative;

impl View for Positive {
    type V = u32;

    closed spec fn view(&self) -> u32 {
        self.v
    }
}

impl Positive {
    #[verifier::type_invariant]
    spec fn inv(self) -> bool {
        self.v >= 1
    }

    /// Wraps a number, returning `None` when it is zero.
    pub fn new(value: u32) -> (r: Option<Positive>)
        ensures
            value == 0 <==> r is None,
            r is Some ==> r->0@ == value,
    {
        if value == 0 {
            None
        } else {
            Some(Positive { v: value })
        }
    }

    /// Returns the wrapped number.
    pub fn get(&self) -> (r: u32)
        ensures
            r == self@,
            r >= 1,
    {
        proof {
            use_type_invariant(self);
        }
        self.v
    }

}

/// A positive real number, stored in fixed point with three decimal places:
/// the wrapped integer counts thousandths, so `1500` stands for `1.5`.
#[derive(Debug, Clone, Copy, PartialEq, Eq, Hash)]
pub struct NonZeroReal {
    milli: u64,
}

/// Positive real, in thousandths.
pub type PositiveReal = NonZeroReal;

impl View for NonZeroReal {
    type V = u64;

    closed spec fn view(&self) -> u64 {
        self.milli
    }
}

impl NonZeroReal {
    #[verifier::type_invariant]
    spec fn inv(self) -> bool {
        self.milli >= 1
    }

    /// Wraps a fixed-point value counted in thousandths. Returns an error
    /// when the value is zero.
    pub fn new(milli: u64) -> (r: Result<NonZeroReal, Error>)
        ensures
            milli == 0 <==> r is Err,
            r is Ok ==> r->Ok_0@ == milli,
            r is Err ==> r->Err_0 is InvalidArgument && r->Err_0->InvalidArgument_0@
                == "real must be positive"@,
    {
        if milli == 0 {
            Err(Error::InvalidArgument(String::from_str("real must be positive")))
        } else {
            Ok(NonZeroReal { milli })
        }
    }

    /// Returns the fixed-point value, counted in thousandths.
    pub fn get(&self) -> (r: u64)
        ensures
            r == self@,
            r >= 1,
    {
        proof {
            use_type_invariant(self);
        }
        self.milli
    }

    /// The smallest whole number at least as large as the wrapped value.
    pub open spec fn ceil_spec(self) -> nat {
        ((self@ + 999) / 1000) as nat
    }

    /// Rounds the value up to a whole number.
    pub fn ceil(&self) -> (r: u64)
        ensures
            r == self.ceil_spec(),
            r >= 1,
    {
        proof {
            use_type_invariant(self);
        }
        let r = self.milli / 1000 + if self.milli % 1000 == 0 { 0 } else { 1 };
        proof {
            assert(r == (self.milli + 999) / 1000) by {
                assert(self.milli == 1000 * (self.milli / 1000) + self.milli % 1000);
            };
        }
        r
    }
}

/// Whether a character may appear in a name.
pub open spec fn is_name_char(c: char) -> bool {
    ('a' <= c && c <= 'z') || ('A' <= c && c <= 'Z') || ('0' <= c && c <= '9') || c == '_'
}

/// The rules for a valid name: non-empty; letters, digits and underscores
/// only; no leading digit; no leading, trailing or doubled underscore.
pub open spec fn valid_name(s: Seq<char>) -> bool {
    &&& s.len() > 0
    &&& !('0' <= s[0] && s[0] <= '9')
    &&& s[0] != '_'
    &&& s[s.len() - 1] != '_'
    &&& forall|i: int| 0 <= i < s.len() ==> is_name_char(#[trigger] s[i])
    &&& forall|i: int| 0 <= i < s.len() - 1 ==> !(#[trigger] s[i] == '_' && s[i + 1] == '_')
}

/// The text a rejected name is reported with: the first naming rule it
/// breaks, in the order the rules are checked.
pub open spec fn name_error_msg(s: Seq<char>) -> Seq<char> {
    if s.len() == 0 {
        "name cannot be empty"@
    } else if '0' <= s[0] && s[0] <= '9' {
        "name cannot start with a digit"@
    } else if s[0] == '_' || s[s.len() - 1] == '_' {
        "name cannot start or end with an underscore"@
    } else if !(forall|i: int| 0 <= i < s.len() ==> is_name_char(#[trigger] s[i])) {
        "name must consist of letters, numbers, and/or underscores"@
    } else {
        "name cannot contain two or more consecutive underscores"@
    }
}

/// Type-safe wrapper for valid names.
#[derive(Debug, PartialEq, Eq, Hash)]
pub struct Name {
    s: String,
}

impl Clone for Name {
    fn clone(&self) -> (r: Self)
        ensures
            r == *self,
    {
        proof {
            use_type_invariant(self);
        }
        Name { s: self.s.clone() }
    }
}

impl View for Name {
    type V = Seq<char>;

    closed spec fn view(&self) -> Seq<char> {
        self.s@
    }
}

impl Name {
    #[verifier::type_invariant]
    spec fn inv(self) -> bool {
        valid_name(self.s@)
    }

    /// Constructs a new name wrapper. Returns an error when the provided
    /// name breaks one of the naming rules.
    pub fn try_new(name: &str) -> (r: Result<Name, Error>)
        ensures
            r is Ok <==> valid_name(name@),
            r is Ok ==> r->Ok_0@ == name@,
            r is Err ==> r->Err_0 is InvalidArgument && r->Err_0->InvalidArgument_0@
                == name_error_msg(name@),
    {
        let len = name.unicode_len();
        if len == 0 {
            return Err(Error::InvalidArgument(String::from_str("name cannot be empty")));
        }
        let first = name.get_char(0);
        if '0' <= first && first <= '9' {
            return Err(Error::InvalidArgument(
                String::from_str("name cannot start with a digit"),
            ));
        }
        if first == '_' || name.get_char(len - 1) == '_' {
            return Err(Error::InvalidArgument(
                String::from_str("name cannot start or end with an underscore"),
            ));
        }
        let mut i: usize = 0;
        while i < len
            invariant
                len == name@.len(),
                len > 0,
                i <= len,
                '0' > name@[0] || name@[0] > '9',
                name@[0] != '_' && name@[len - 1] != '_',
                forall|j: int| 0 <= j < i ==> is_name_char(#[trigger] name@[j]),
            decreases len - i,
        {
            let c = name.get_char(i);
            if !(('a' <= c && c <= 'z') || ('A' <= c && c <= 'Z') || ('0' <= c && c <= '9')
                || c == '_') {
                proof {
                    assert(!is_name_char(name@[i as int]));
                }
                return Err(Error::InvalidArgument(
                    String::from_str("name must consist of letters, numbers, and/or underscores"),
                ));
            }
            i = i + 1;
        }
        let mut i: usize = 0;
        while i + 1 < len
            invariant
                len == name@.len(),
                i < len,
                forall|j: int| 0 <= j < len ==> is_name_char(#[trigger] name@[j]),
                '0' > name@[0] || name@[0] > '9',
                name@[0] != '_' && name@[len - 1] != '_',
                forall|j: int| 0 <= j < i ==> !(#[trigger] name@[j] == '_' && name@[j + 1] == '_'),
            decreases len - i,
        {
            if name.get_char(i) == '_' && name.get_char(i + 1) == '_' {
                return Err(Error::InvalidArgument(
                    String::from_str(
                        "name cannot contain two or more consecutive underscores",
                    ),
                ));
            }
            i = i + 1;
        }
        Ok(Name { s: String::from_str(name) })
    }

    /// The name as a string.
    pub fn as_string(&self) -> (r: String)
        ensures
            r@ == self@,
    {
        self.s.clone()
    }

    /// The name as a string slice.
    pub fn as_str(&self) -> (r: &str)
        ensures
            r@ == self@,
    {
        self.s.as_str()
    }

    /// Whether two names are the same.
    pub fn same(&self, other: &Name) -> (r: bool)
        ensures
            r <==> self@ == other@,
    {
        self.s == other.s
    }
}

/// Type-safe path of names: a name within a hierarchy of nested scopes.
#[derive(Debug, PartialEq, Eq, Hash)]
pub struct PathName {
    names: Vec<Name>,
}

impl Clone for PathName {
    fn clone(&self) -> (r: Self)
        ensures
            r@ == self@,
    {
        let mut names: Vec<Name> = Vec::new();
        let mut i: usize = 0;
        while i < self.names.len()
            invariant
                i <= self.names@.len(),
                names@ == self.names@.take(i as int),
            decreases self.names@.len() - i,
        {
            names.push(self.names[i].clone());
            proof {
                assert(names@ =~= self.names@.take((i + 1) as int));
            }
            i = i + 1;
        }
        proof {
            assert(names@ =~= self.names@);
        }
        PathName { names }
    }
}

impl View for PathName {
    type V = Seq<Seq<char>>;

    closed spec fn view(&self) -> Seq<Seq<char>> {
        self.names@.map_values(|n: Name| n@)
    }
}

impl PathName {
    /// The empty path.
    pub fn new_empty() -> (r: PathName)
        ensures
            r@ == Seq::<Seq<char>>::empty(),
    {
        let r = PathName { names: Vec::new() };
        proof {
            assert(r@ =~= Seq::<Seq<char>>::empty());
        }
        r
    }

    /// A path from a sequence of names.
    pub fn new(names: Vec<Name>) -> (r: PathName)
        ensures
            r@ == names@.map_values(|n: Name| n@),
    {
        PathName { names }
    }

    /// A path with a single segment.
    pub fn from_name(name: Name) -> (r: PathName)
        ensures
            r@ == seq![name@],
    {
        let ghost v = name@;
        let r = PathName { names: vec![name] };
        proof {
            assert(r@ =~= seq![v]);
        }
        r
    }

    /// A path from strings; each must be a valid name.
    pub fn try_new(names: &Vec<String>) -> (r: Result<PathName, Error>)
        ensures
            r is Ok <==> (forall|i: int|
                0 <= i < names@.len() ==> valid_name(#[trigger] names@[i]@)),
            r is Ok ==> r->Ok_0@ == names@.map_values(|s: String| s@),
            r is Err ==> r->Err_0 is InvalidArgument,
            r is Err ==> (exists|i: int|
                0 <= i < names@.len() && !valid_name((#[trigger] names@[i])@) && (forall|j: int|
                    0 <= j < i ==> valid_name((#[trigger] names@[j])@)) && r->Err_0
                    ->InvalidArgument_0@ == name_error_msg(names@[i]@)),
    {
        let mut out: Vec<Name> = Vec::new();
        let mut i: usize = 0;
        while i < names.len()
            invariant
                i <= names@.len(),
                out@.len() == i,
                forall|j: int| 0 <= j < i ==> valid_name(#[trigger] names@[j]@),
                forall|j: int| 0 <= j < i ==> #[trigger] out@[j]@ == names@[j]@,
            decreases names@.len() - i,
        {
            match Name::try_new(names[i].as_str()) {
                Ok(n) => out.push(n),
                Err(e) => {
                    proof {
                        assert(!valid_name((#[trigger] names@[i as int])@));
                    }
                    return Err(e);
                }
            }
            i = i + 1;
        }
        let r = PathName { names: out };
        proof {
            assert(r@ =~= names@.map_values(|s: String| s@));
        }
        Ok(r)
    }

    /// A path with one segment parsed from a string.
    pub fn try_from_str(name: &str) -> (r: Result<PathName, Error>)
        ensures
            r is Ok <==> valid_name(name@),
            r is Ok ==> r->Ok_0@ == seq![name@],
    {
        match Name::try_new(name) {
            Ok(n) => Ok(PathName::from_name(n)),
            Err(e) => Err(e),
        }
    }

    /// Returns true if this path is empty.
    pub fn is_empty(&self) -> (r: bool)
        ensures
            r <==> self@.len() == 0,
    {
        self.names.len() == 0
    }

    /// Appends a name at the end of the path.
    pub fn push(&mut self, name: Name)
        ensures
            final(self)@ == old(self)@.push(name@),
    {
        let ghost v = name@;
        self.names.push(name);
        proof {
            assert(self@ =~= old(self)@.push(v));
        }
    }

    /// This path, placed below a whole parent path.
    pub fn with_parents(&self, parent: &PathName) -> (r: PathName)
        ensures
            r@ == parent@ + self@,
    {
        let mut names: Vec<Name> = Vec::new();
        let mut i: usize = 0;
        while i < parent.names.len()
            invariant
                i <= parent.names@.len(),
                names@ == parent.names@.take(i as int),
            decreases parent.names@.len() - i,
        {
            names.push(parent.names[i].clone());
            proof {
                assert(names@ =~= parent.names@.take((i + 1) as int));
            }
            i = i + 1;
        }
        let mut i: usize = 0;
        proof {
            assert(names@ =~= parent.names@);
        }
        while i < self.names.len()
            invariant
                i <= self.names@.len(),
                names@ == parent.names@ + self.names@.take(i as int),
            decreases self.names@.len() - i,
        {
            names.push(self.names[i].clone());
            proof {
                assert(names@ =~= parent.names@ + self.names@.take((i + 1) as int));
            }
            i = i + 1;
        }
        let r = PathName { names };
        proof {
            assert(self.names@.take(self.names@.len() as int) =~= self.names@);
            assert(r@ =~= parent@ + self@);
        }
        r
    }

    /// This path, placed below a single parent name.
    pub fn with_parent(&self, name: Name) -> (r: PathName)
        ensures
            r@ == seq![name@] + self@,
    {
        self.with_parents(&PathName::from_name(name))
    }

    /// Whether two paths are the same.
    pub fn same(&self, other: &PathName) -> (r: bool)
        ensures
            r <==> self@ == other@,
    {
        if self.names.len() != other.names.len() {
            proof {
                assert(self@.len() == self.names@.len());
                assert(other@.len() == other.names@.len());
            }
            return false;
        }
        let mut i: usize = 0;
        while i < self.names.len()
            invariant
                self.names@.len() == other.names@.len(),
                i <= self.names@.len(),
                forall|j: int| 0 <= j < i ==> self@[j] == other@[j],
            decreases self.names@.len() - i,
        {
            if !self.names[i].same(&other.names[i]) {
                proof {
                    assert(self@[i as int] != other@[i as int]);
                }
                return false;
            }
            i = i + 1;
        }
        proof {
            assert(self@ =~= other@);
        }
        true
    }

    /// The number of segments in the path.
    pub fn len(&self) -> (r: usize)
        ensures
            r == self@.len(),
    {
        self.names.len()
    }

    /// The last segment, if any.
    pub fn last(&self) -> (r: Option<&Name>)
        ensures
            self@.len() == 0 <==> r is None,
            r is Some ==> r->0@ == self@[self@.len() - 1],
    {
        if self.names.len() == 0 {
            None
        } else {
            Some(&self.names[self.names.len() - 1])
        }
    }

    /// The path without its last segment, when the path is non-empty.
    pub fn parent(&self) -> (r: Option<PathName>)
        ensures
            self@.len() == 0 <==> r is None,
            r is Some ==> r->0@ == self@.take(self@.len() - 1),
    {
        if self.names.len() == 0 {
            None
        } else {
            let mut names: Vec<Name> = Vec::new();
            let mut i: usize = 0;
            while i < self.names.len() - 1
                invariant
                    self.names@.len() >= 1,
                    i <= self.names@.len() - 1,
                    names@ == self.names@.take(i as int),
                decreases self.names@.len() - i,
            {
                names.push(self.names[i].clone());
                proof {
                    assert(names@ =~= self.names@.take((i + 1) as int));
                }
                i = i + 1;
            }
            let r = PathName { names };
            proof {
                assert(r@ =~= self@.take(self@.len() - 1));
            }
            Some(r)
        }
    }

    /// The rendering of a path: its segments joined with double underscores.
    pub open spec fn path_string_spec_from(s: Seq<Seq<char>>, i: int) -> Seq<char>
        decreases s.len() - i,
    {
        if i < 0 || i >= s.len() {
            Seq::empty()
        } else if i == s.len() - 1 {
            s[i]
        } else {
            s[i] + "__"@ + Self::path_string_spec_from(s, i + 1)
        }
    }

    /// The rendering of a path: its segments joined with double underscores.
    pub open spec fn path_string_spec(self) -> Seq<char> {
        Self::path_string_spec_from(self@, 0)
    }

    /// Renders the path: its segments joined with double underscores.
    pub fn path_string(&self) -> (r: String)
        ensures
            r@ == self.path_string_spec(),
    {
        let mut out = String::new();
        if self.names.len() == 0 {
            return out;
        }
        let mut i: usize = self.names.len() - 1;
        let mut tail = self.names[i].as_string();
        while i > 0
            invariant
                i < self.names@.len(),
                tail@ == Self::path_string_spec_from(self@, i as int),
            decreases i,
        {
            i = i - 1;
            let mut piece = self.names[i].as_string();
            piece.append("__");
            piece.append(tail.as_str());
            tail = piece;
        }
        tail
    }
}

} // verus!
