use vstd::prelude::*;

verus! {

/// Width of an integral value in bytes: one, two, four or eight.
#[derive(Debug, Clone, Copy, PartialEq, Eq, Structural)]
pub enum Width {
    B,
    W,
    D,
    Q,
}

impl Width {
    /// Number of bytes occupied by a value of this width.
    pub open spec fn spec_bytes(self) -> nat {
        match self {
            Width::B => 1,
            Width::W => 2,
            Width::D => 4,
            Width::Q => 8,
        }
    }

    /// Number of bytes occupied by a value of this width.
    pub fn bytes(&self) -> (r: usize)
        ensures
            r == self.spec_bytes(),
    {
        match self {
            Width::B => 1,
            Width::W => 2,
            Width::D => 4,
            Width::Q => 8,
        }
    }

    /// The width that occupies exactly `bytes` bytes, if there is one.
    pub fn new(bytes: usize) -> (r: Option<Width>)
        ensures
            r matches Some(w) ==> w.spec_bytes() == bytes,
            r is None <==> !(bytes == 1 || bytes == 2 || bytes == 4 || bytes == 8),
    {
        if bytes == 1 {
            Some(Width::B)
        } else if bytes == 2 {
            Some(Width::W)
        } else if bytes == 4 {
            Some(Width::D)
        } else if bytes == 8 {
            Some(Width::Q)
        } else {
            None
        }
    }
}

/// Signedness of an integral type.
#[derive(Debug, Clone, Copy, PartialEq, Eq, Structural)]
pub enum Sign {
    Signed,
    Unsigned,
}

/// Operand size of a machine value.
#[derive(Debug, Clone, Copy, PartialEq, Eq, Structural)]
pub enum Size {
    Byte,
    Word,
    Double,
    Quad,
}

impl Size {
    /// Number of bytes of an operand of this size.
    pub open spec fn spec_bytes(self) -> nat {
        match self {
            Size::Byte => 1,
            Size::Word => 2,
            Size::Double => 4,
            Size::Quad => 8,
        }
    }

    /// Number of bytes of an operand of this size.
    pub fn bytes(&self) -> (r: usize)
        ensures
            r == self.spec_bytes(),
    {
        match self {
            Size::Byte => 1,
            Size::Word => 2,
            Size::Double => 4,
            Size::Quad => 8,
        }
    }
}

/// The target architecture of an item.
#[derive(Debug, Clone, Copy, PartialEq, Eq, Structural)]
pub enum Target {
    Host,
}

/// Properties of a target architecture.
#[derive(Debug, Clone, Copy, PartialEq, Eq, Structural)]
pub struct Architecture {
    pub pointer: Width,
}

/// Pointer width of the machine the compiler runs on.
pub open spec fn host_pointer() -> Width {
    if usize::BITS == 64 {
        Width::Q
    } else {
        Width::D
    }
}

impl Target {
    /// The architecture described by this target.
    pub open spec fn spec_architecture(self) -> Architecture {
        match self {
            Target::Host => Architecture { pointer: host_pointer() },
        }
    }

    /// The architecture described by this target.
    pub fn architecture(&self) -> (r: Architecture)
        ensures
            r == self.spec_architecture(),
    {
        match self {
            Target::Host => {
                let pointer = if usize::BITS == 64 {
                    Width::Q
                } else {
                    Width::D
                };
                Architecture { pointer }
            },
        }
    }

    /// The target named by an annotation string.
    pub fn parse(string: &str) -> (r: Option<Target>)
        ensures
            r == (if string@ == "host"@ {
                Some(Target::Host)
            } else {
                None
            }),
    {
        if text_is(string, "host") {
            Some(Target::Host)
        } else {
            None
        }
    }

    /// The annotation string that names this target, quoted.
    pub fn to_string(&self) -> (r: String)
        ensures
            r@ == "\"host\""@,
    {
        match self {
            Target::Host => String::from_str("\"host\""),
        }
    }
}

/// Whether two strings hold the same characters.
pub fn text_is(text: &str, other: &str) -> (r: bool)
    ensures
        r == (text@ == other@),
{
    let n = text.unicode_len();
    let m = other.unicode_len();
    if n != m {
        return false;
    }
    let mut i: usize = 0;
    while i < n
        invariant
            n == text@.len(),
            m == other@.len(),
            n == m,
            i <= n,
            forall|j: int| 0 <= j < i ==> text@[j] == other@[j],
        decreases n - i,
    {
        if text.get_char(i) != other.get_char(i) {
            return false;
        }
        i = i + 1;
    }
    assert(text@ =~= other@);
    true
}

/// A region of source text: a file and a byte range within it.
#[derive(Debug, Clone, Copy, PartialEq, Eq, Structural)]
pub struct Span {
    pub file: usize,
    pub start: usize,
    pub end: usize,
}

impl Span {
    /// The span of compiler-internal text: the whole of the pseudo-file
    /// `<compiler internal>`, which is the first file of every session.
    pub open spec fn spec_internal() -> Span {
        Span { file: 0, start: 0, end: 19 }
    }

    /// The span of compiler-internal text.
    pub fn internal() -> (r: Span)
        ensures
            r == Span::spec_internal(),
    {
        Span { file: 0, start: 0, end: 19 }
    }
}

/// An item of a program: a function, by the path of its name and its
/// position among the functions that share that path, or a static
/// variable, by its path. A path is the sequence of the interned names
/// that lead to the item.
#[derive(Debug)]
pub enum Symbol {
    Function(Vec<u64>, usize),
    Static(Vec<u64>),
}

} // verus!
