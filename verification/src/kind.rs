use vstd::prelude::*;

verus! {

/// The registry of object kinds that can appear in a header. Only `Blob`
/// is implemented by the read path in this scope; the other names decode
/// at the header level and are then reported as unsupported.
#[derive(Clone, Copy, Debug, PartialEq, Eq, Structural)]
pub enum Kind {
    Blob,
    Tree,
    Commit,
    Tag,
}

impl Kind {
    /// Canonical lowercase name of the kind, as the ASCII bytes written
    /// on the wire.
    pub open spec fn spec_name(self) -> Seq<u8> {
        match self {
            Kind::Blob => seq![98u8, 108u8, 111u8, 98u8],
            Kind::Tree => seq![116u8, 114u8, 101u8, 101u8],
            Kind::Commit => seq![99u8, 111u8, 109u8, 109u8, 105u8, 116u8],
            Kind::Tag => seq![116u8, 97u8, 103u8],
        }
    }

    /// Whether this build implements the kind's payload semantics.
    pub open spec fn spec_supported(self) -> bool {
        self is Blob
    }

    /// Executable form of `spec_supported`.
    pub fn supported(self) -> (r: bool)
        ensures
            r == self.spec_supported(),
    {
        match self {
            Kind::Blob => true,
            _ => false,
        }
    }

    /// Appends the canonical name bytes to `out`.
    pub fn push_name(self, out: &mut Vec<u8>)
        ensures
            final(out)@ == old(out)@ + self.spec_name(),
    {
        match self {
            Kind::Blob => {
                out.push(98u8);
                out.push(108u8);
                out.push(111u8);
                out.push(98u8);
            },
            Kind::Tree => {
                out.push(116u8);
                out.push(114u8);
                out.push(101u8);
                out.push(101u8);
            },
            Kind::Commit => {
                out.push(99u8);
                out.push(111u8);
                out.push(109u8);
                out.push(109u8);
                out.push(105u8);
                out.push(116u8);
            },
            Kind::Tag => {
                out.push(116u8);
                out.push(97u8);
                out.push(103u8);
            },
        }
        proof {
            assert(out@ =~= old(out)@ + self.spec_name());
        }
    }
}

/// The kind whose canonical name is exactly `token`, if any.
pub open spec fn kind_of_name(token: Seq<u8>) -> Option<Kind> {
    if token == Kind::Blob.spec_name() {
        Some(Kind::Blob)
    } else if token == Kind::Tree.spec_name() {
        Some(Kind::Tree)
    } else if token == Kind::Commit.spec_name() {
        Some(Kind::Commit)
    } else if token == Kind::Tag.spec_name() {
        Some(Kind::Tag)
    } else {
        None
    }
}

/// Looks the token up in the kind registry.
pub fn parse_kind(token: &[u8]) -> (r: Option<Kind>)
    ensures
        r == kind_of_name(token@),
{
    if token.len() == 4 && token[0] == 98 && token[1] == 108 && token[2] == 111 && token[3] == 98 {
        proof {
            assert(token@ =~= Kind::Blob.spec_name());
        }
        Some(Kind::Blob)
    } else if token.len() == 4 && token[0] == 116 && token[1] == 114 && token[2] == 101
        && token[3] == 101 {
        proof {
            assert(token@ =~= Kind::Tree.spec_name());
        }
        Some(Kind::Tree)
    } else if token.len() == 6 && token[0] == 99 && token[1] == 111 && token[2] == 109
        && token[3] == 109 && token[4] == 105 && token[5] == 116 {
        proof {
            assert(token@ =~= Kind::Commit.spec_name());
        }
        Some(Kind::Commit)
    } else if token.len() == 3 && token[0] == 116 && token[1] == 97 && token[2] == 103 {
        proof {
            assert(token@ =~= Kind::Tag.spec_name());
        }
        Some(Kind::Tag)
    } else {
        proof {
            assert(token@ != Kind::Blob.spec_name());
            assert(token@ != Kind::Tree.spec_name());
            assert(token@ != Kind::Commit.spec_name());
            assert(token@ != Kind::Tag.spec_name());
        }
        None
    }
}

} // verus!
