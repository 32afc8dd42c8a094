//! The registry of file kinds and their three-character extension codes.

use vstd::prelude::*;

verus! {

/// The kinds of sub-file an archive can hold.
#[derive(Clone, Copy, Debug, PartialEq, Eq, Structural)]
pub enum FileKind {
    /// Sprite graphics, extension `slp`.
    Sprite,
    /// Shape graphics, extension `shp`.
    Shape,
    /// Anything that is neither graphics nor sound, extension `bin`.
    Binary,
    /// Audio, extension `wav`.
    Audio,
}

/// A three-character extension code, in natural reading order.
#[derive(Clone, Copy, Debug, PartialEq, Eq, Structural)]
pub struct ExtensionCode {
    pub first: u8,
    pub second: u8,
    pub third: u8,
}

/// What a table holds: a kind that the registry knows, or the raw code of
/// one that it does not.
#[derive(Clone, Copy, Debug, PartialEq, Eq, Structural)]
pub enum TableKind {
    Known(FileKind),
    Unknown(ExtensionCode),
}

/// The ASCII lower-case form of a byte.
pub open spec fn lower_byte(b: u8) -> u8 {
    if 0x41 <= b <= 0x5a {
        (b + 0x20) as u8
    } else {
        b
    }
}

/// The code that the registry assigns to a kind.
pub open spec fn extension_of(kind: FileKind) -> ExtensionCode {
    match kind {
        FileKind::Sprite => ExtensionCode { first: 0x73, second: 0x6c, third: 0x70 },
        FileKind::Shape => ExtensionCode { first: 0x73, second: 0x68, third: 0x70 },
        FileKind::Binary => ExtensionCode { first: 0x62, second: 0x69, third: 0x6e },
        FileKind::Audio => ExtensionCode { first: 0x77, second: 0x61, third: 0x76 },
    }
}

/// The kind that a code stands for, letter case ignored; a code that the
/// registry does not know is kept as it was given.
pub open spec fn kind_of(code: ExtensionCode) -> TableKind {
    let folded = code.folded();
    if folded == extension_of(FileKind::Sprite) {
        TableKind::Known(FileKind::Sprite)
    } else if folded == extension_of(FileKind::Shape) {
        TableKind::Known(FileKind::Shape)
    } else if folded == extension_of(FileKind::Binary) {
        TableKind::Known(FileKind::Binary)
    } else if folded == extension_of(FileKind::Audio) {
        TableKind::Known(FileKind::Audio)
    } else {
        TableKind::Unknown(code)
    }
}

impl ExtensionCode {
    /// The code with each ASCII upper-case letter replaced by its lower-case
    /// form.
    pub open spec fn folded(self) -> ExtensionCode {
        ExtensionCode {
            first: lower_byte(self.first),
            second: lower_byte(self.second),
            third: lower_byte(self.third),
        }
    }

    /// The code that three bytes of a table record spell: the record stores
    /// the characters last to first.
    pub open spec fn spec_from_disk(b0: u8, b1: u8, b2: u8) -> ExtensionCode {
        ExtensionCode { first: b2, second: b1, third: b0 }
    }

    /// Builds a code from its characters in reading order.
    pub fn new(first: u8, second: u8, third: u8) -> (code: ExtensionCode)
        ensures
            code == (ExtensionCode { first, second, third }),
    {
        ExtensionCode { first, second, third }
    }

    /// Builds a code from the three bytes of a table record, undoing the
    /// reversed order in which the record stores them.
    pub fn from_disk(b0: u8, b1: u8, b2: u8) -> (code: ExtensionCode)
        ensures
            code == Self::spec_from_disk(b0, b1, b2),
    {
        ExtensionCode { first: b2, second: b1, third: b0 }
    }

    /// The three bytes as a table record stores them, last character first.
    pub fn to_disk(self) -> (bytes: (u8, u8, u8))
        ensures
            Self::spec_from_disk(bytes.0, bytes.1, bytes.2) == self,
            bytes == (self.third, self.second, self.first),
    {
        (self.third, self.second, self.first)
    }

    /// Folds ASCII upper-case letters to lower case.
    pub fn to_lowercase(self) -> (code: ExtensionCode)
        ensures
            code == self.folded(),
    {
        ExtensionCode {
            first: lower(self.first),
            second: lower(self.second),
            third: lower(self.third),
        }
    }
}

impl TableKind {
    /// Whether this is the given known kind.
    pub open spec fn is_kind(self, kind: FileKind) -> bool {
        self == TableKind::Known(kind)
    }

    /// The code under which a table of this kind is listed.
    pub open spec fn spec_extension(self) -> ExtensionCode {
        match self {
            TableKind::Known(kind) => extension_of(kind),
            TableKind::Unknown(code) => code,
        }
    }

    /// The code under which a table of this kind is listed: the registry's
    /// code for a known kind, the raw code otherwise.
    pub fn extension(self) -> (code: ExtensionCode)
        ensures
            code == self.spec_extension(),
    {
        match self {
            TableKind::Known(kind) => kind_to_extension(kind),
            TableKind::Unknown(code) => code,
        }
    }
}

/// Folds one byte to ASCII lower case.
pub fn lower(b: u8) -> (r: u8)
    ensures
        r == lower_byte(b),
{
    if 0x41 <= b && b <= 0x5a {
        b + 0x20
    } else {
        b
    }
}

/// The extension code of a kind.
pub fn kind_to_extension(kind: FileKind) -> (code: ExtensionCode)
    ensures
        code == extension_of(kind),
{
    match kind {
        FileKind::Sprite => ExtensionCode { first: 0x73, second: 0x6c, third: 0x70 },
        FileKind::Shape => ExtensionCode { first: 0x73, second: 0x68, third: 0x70 },
        FileKind::Binary => ExtensionCode { first: 0x62, second: 0x69, third: 0x6e },
        FileKind::Audio => ExtensionCode { first: 0x77, second: 0x61, third: 0x76 },
    }
}

/// The kind of an extension code. Never fails: a code that the registry
/// does not know comes back as `Unknown`, carrying the code unchanged.
pub fn extension_to_kind(code: ExtensionCode) -> (kind: TableKind)
    ensures
        kind == kind_of(code),
{
    let folded = code.to_lowercase();
    if folded == kind_to_extension(FileKind::Sprite) {
        TableKind::Known(FileKind::Sprite)
    } else if folded == kind_to_extension(FileKind::Shape) {
        TableKind::Known(FileKind::Shape)
    } else if folded == kind_to_extension(FileKind::Binary) {
        TableKind::Known(FileKind::Binary)
    } else if folded == kind_to_extension(FileKind::Audio) {
        TableKind::Known(FileKind::Audio)
    } else {
        TableKind::Unknown(code)
    }
}

/// Every kind is recovered from its own extension code.
pub proof fn lemma_extension_round_trip(kind: FileKind)
    ensures
        kind_of(extension_of(kind)) == TableKind::Known(kind),
{
}

/// Two codes that differ only in letter case stand for the same known kind,
/// or are both unknown.
pub proof fn lemma_kind_ignores_case(a: ExtensionCode, b: ExtensionCode, kind: FileKind)
    requires
        a.folded() == b.folded(),
    ensures
        kind_of(a).is_kind(kind) <==> kind_of(b).is_kind(kind),
        (kind_of(a) is Unknown) <==> (kind_of(b) is Unknown),
{
}

/// Distinct kinds have distinct extension codes.
pub proof fn lemma_extension_injective(a: FileKind, b: FileKind)
    requires
        extension_of(a) == extension_of(b),
    ensures
        a == b,
{
}

} // verus!
