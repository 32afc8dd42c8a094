//! Requests by name: `<id>.<extension>`, such as `50500.bin`.
//!
//! The identifier is the text before the first dot, the extension the text
//! between the first dot and the second, or the end of the name. The
//! extension is matched without regard to letter case.

use vstd::prelude::*;
use crate::archive::Archive;
use crate::archive::ArchiveView;
use crate::archive::contents_by_kind;
use crate::archive::same_outcome;
use crate::error::LookupError;
use crate::kind::ExtensionCode;
use crate::kind::FileKind;
use crate::kind::TableKind;
use crate::kind::extension_to_kind;
use crate::kind::kind_of;
use crate::kind::lower_byte;
use crate::kind::extension_of;
use crate::text::all_digits;
use crate::text::digit_value;
use crate::text::digits_of;
use crate::text::entry_name_chars;
use crate::text::extension_chars;
use crate::text::lemma_number_round_trip;
use crate::text::lemma_numeral_spells;
use crate::text::number_of;
use crate::text::numeral;
use crate::text::parse_number;

verus! {

/// A sub-file named by kind and identifier.
#[derive(Clone, Copy, Debug, PartialEq, Eq, Structural)]
pub struct Request {
    pub id: u32,
    pub kind: FileKind,
}

/// The position of the first dot at or after `from`, or the length of the
/// name if there is none.
pub open spec fn first_dot(name: Seq<char>, from: int) -> int
    decreases name.len() - from,
{
    if from < 0 || from >= name.len() {
        name.len() as int
    } else if name[from] == '.' {
        from
    } else {
        first_dot(name, from + 1)
    }
}

/// The extension code that a text spells: three characters of ASCII.
pub open spec fn code_of(extension: Seq<char>) -> Option<ExtensionCode> {
    if extension.len() == 3 && extension[0] as u32 <= 0x7f && extension[1] as u32 <= 0x7f
        && extension[2] as u32 <= 0x7f {
        Some(
            ExtensionCode {
                first: extension[0] as u8,
                second: extension[1] as u8,
                third: extension[2] as u8,
            },
        )
    } else {
        None
    }
}

/// The kind that an extension text names, letter case ignored.
pub open spec fn kind_of_text(extension: Seq<char>) -> Option<FileKind> {
    match code_of(extension) {
        Some(code) => match kind_of(code) {
            TableKind::Known(kind) => Some(kind),
            TableKind::Unknown(_) => None,
        },
        None => None,
    }
}

/// The text before the first dot.
pub open spec fn stem_of(name: Seq<char>) -> Seq<char> {
    name.subrange(0, first_dot(name, 0))
}

/// The text between the first dot and the next, or the end of the name.
/// Meant for a name with a dot.
pub open spec fn extension_text(name: Seq<char>) -> Seq<char> {
    let dot = first_dot(name, 0);
    name.subrange(dot + 1, first_dot(name, dot + 1))
}

/// What a name asks for. A name without a dot is invalid; then the
/// extension must name a kind; then the text before the dot must spell an
/// identifier in decimal.
pub open spec fn request_of(name: Seq<char>) -> Result<Request, LookupError> {
    if first_dot(name, 0) >= name.len() {
        Err(LookupError::InvalidName)
    } else {
        match kind_of_text(extension_text(name)) {
            None => Err(LookupError::UnknownExtension),
            Some(kind) => match number_of(stem_of(name), 10) {
                None => Err(LookupError::InvalidName),
                Some(id) => Ok(Request { id, kind }),
            },
        }
    }
}

/// What extracting by name gives: the lookup by kind and identifier for a
/// name that is a request, the name's own error otherwise.
pub open spec fn contents_by_name(archive: ArchiveView, name: Seq<char>) -> Result<
    Seq<u8>,
    LookupError,
> {
    match request_of(name) {
        Ok(request) => contents_by_kind(archive, request.kind, request.id),
        Err(e) => Err(e),
    }
}

/// `first_dot` gives a position within bounds or the length of the name;
/// no character before it is a dot, and the character at it, if any, is.
pub proof fn lemma_first_dot(name: Seq<char>, from: int)
    requires
        0 <= from <= name.len(),
    ensures
        from <= first_dot(name, from) <= name.len(),
        forall|k: int| from <= k < first_dot(name, from) ==> #[trigger] name[k] != '.',
        first_dot(name, from) < name.len() ==> name[first_dot(name, from)] == '.',
    decreases name.len() - from,
{
    if from < name.len() && name[from] != '.' {
        lemma_first_dot(name, from + 1);
    }
}

/// Finds the first dot at or after `from`.
pub fn find_dot(name: &str, from: usize) -> (at: usize)
    requires
        from <= name@.len(),
    ensures
        at == first_dot(name@, from as int),
        from <= at <= name@.len(),
{
    let len = name.unicode_len();
    let mut i: usize = from;
    while i < len
        invariant
            from <= i <= len,
            len == name@.len(),
            first_dot(name@, from as int) == first_dot(name@, i as int),
        decreases len - i,
    {
        if name.get_char(i) == '.' {
            return i;
        }
        i += 1;
    }
    i
}

/// Reads the kind that the characters from `from` up to `to` name.
pub fn parse_kind(name: &str, from: usize, to: usize) -> (kind: Option<FileKind>)
    requires
        from <= to <= name@.len(),
    ensures
        kind == kind_of_text(name@.subrange(from as int, to as int)),
{
    if to - from != 3 {
        return None;
    }
    let a: u32 = name.get_char(from) as u32;
    let b: u32 = name.get_char(from + 1) as u32;
    let c: u32 = name.get_char(from + 2) as u32;
    if a > 0x7f || b > 0x7f || c > 0x7f {
        return None;
    }
    let code = ExtensionCode::new(a as u8, b as u8, c as u8);
    match extension_to_kind(code) {
        TableKind::Known(kind) => Some(kind),
        TableKind::Unknown(_) => None,
    }
}

/// Reads a name of the form `<id>.<extension>`.
pub fn parse_request(name: &str) -> (r: Result<Request, LookupError>)
    ensures
        r == request_of(name@),
{
    let len = name.unicode_len();
    let dot = find_dot(name, 0);
    if dot >= len {
        return Err(LookupError::InvalidName);
    }
    let end = find_dot(name, dot + 1);
    match parse_kind(name, dot + 1, end) {
        None => Err(LookupError::UnknownExtension),
        Some(kind) => match parse_number(name, 0, dot, 10) {
            None => Err(LookupError::InvalidName),
            Some(id) => Ok(Request { id, kind }),
        },
    }
}

impl Archive {
    /// The bytes of the sub-file that a name of the form `<id>.<extension>`
    /// asks for.
    pub fn extract(&self, name: &str) -> (r: Result<&[u8], LookupError>)
        ensures
            same_outcome(r, contents_by_name(self@, name@)),
    {
        match parse_request(name) {
            Ok(request) => self.find_contents(request.kind, request.id),
            Err(e) => Err(e),
        }
    }
}

/// The ASCII lower-case form of a character.
pub open spec fn fold_char(c: char) -> char {
    if 0x41 <= c as u32 <= 0x5a {
        ((c as u32) + 0x20) as char
    } else {
        c
    }
}

/// Whether two names differ at most in the case of their ASCII letters.
pub open spec fn same_but_case(a: Seq<char>, b: Seq<char>) -> bool {
    &&& a.len() == b.len()
    &&& forall|i: int| 0 <= i < a.len() ==> fold_char(#[trigger] a[i]) == fold_char(b[i])
}

/// The first dot is at `at` if no character from `from` up to `at` is a
/// dot and `at` is a dot or the end of the name.
pub proof fn lemma_first_dot_at(name: Seq<char>, from: int, at: int)
    requires
        0 <= from <= at <= name.len(),
        forall|k: int| from <= k < at ==> #[trigger] name[k] != '.',
        at < name.len() ==> name[at] == '.',
    ensures
        first_dot(name, from) == at,
    decreases at - from,
{
    if from < at {
        lemma_first_dot_at(name, from + 1, at);
    }
}

/// The letters of a kind's extension spell the code that the registry
/// gives to the kind.
pub proof fn lemma_extension_text_is_code(kind: FileKind)
    ensures
        code_of(extension_chars(kind)) == Some(extension_of(kind)),
        kind_of_text(extension_chars(kind)) == Some(kind),
{
}

/// The name under which an entry is listed is a request for that entry.
pub proof fn lemma_entry_name_is_request(id: u32, kind: FileKind)
    ensures
        request_of(entry_name_chars(id, kind)) == Ok::<Request, LookupError>(
            Request { id, kind },
        ),
{
    let digits = numeral(id as nat, 10);
    let letters = extension_chars(kind);
    let name = entry_name_chars(id, kind);
    lemma_numeral_spells(id as nat, 10);
    lemma_number_round_trip(id, 10);
    assert forall|k: int| 0 <= k < digits.len() implies #[trigger] name[k] != '.' by {
        assert(name[k] == digits[k]);
        assert(digit_value(digits[k], 10) is Some);
    }
    let dot = digits.len() as int;
    assert(name[dot] == '.');
    lemma_first_dot_at(name, 0, dot);
    assert forall|k: int| dot + 1 <= k < name.len() implies #[trigger] name[k] != '.' by {
        assert(name[k] == letters[k - dot - 1]);
    }
    lemma_first_dot_at(name, dot + 1, name.len() as int);
    assert(stem_of(name) =~= digits);
    assert(extension_text(name) =~= letters);
    lemma_extension_text_is_code(kind);
}

/// Two characters with the same lower-case form are both ASCII or both
/// not, and as bytes have the same lower-case form.
pub proof fn lemma_fold_byte(x: char, y: char)
    requires
        fold_char(x) == fold_char(y),
    ensures
        (x as u32 <= 0x7f) == (y as u32 <= 0x7f),
        x as u32 <= 0x7f ==> lower_byte(x as u8) == lower_byte(y as u8),
{
    assert(fold_char(x) as u32 == fold_char(y) as u32);
}

/// Two names that differ at most in letter case ask for the same thing.
pub proof fn lemma_request_ignores_case(a: Seq<char>, b: Seq<char>)
    requires
        same_but_case(a, b),
    ensures
        request_of(a) == request_of(b),
{
    lemma_first_dot(a, 0);
    assert forall|k: int| 0 <= k < a.len() implies (a[k] == '.') == (#[trigger] b[k] == '.') by {
        assert(fold_char(a[k]) == fold_char(b[k]));
    }
    let dot = first_dot(a, 0);
    assert forall|k: int| 0 <= k < dot implies #[trigger] b[k] != '.' by {
        assert(a[k] != '.');
    }
    lemma_first_dot_at(b, 0, dot);
    if dot < a.len() {
        lemma_first_dot(a, dot + 1);
        let end = first_dot(a, dot + 1);
        assert forall|k: int| dot + 1 <= k < end implies #[trigger] b[k] != '.' by {
            assert(a[k] != '.');
        }
        lemma_first_dot_at(b, dot + 1, end);
        let ea = extension_text(a);
        let eb = extension_text(b);
        assert(ea.len() == eb.len());
        assert forall|k: int| 0 <= k < ea.len() implies fold_char(#[trigger] ea[k]) == fold_char(
            eb[k],
        ) by {
            assert(ea[k] == a[dot + 1 + k]);
            assert(eb[k] == b[dot + 1 + k]);
        }
        assert(kind_of_text(ea) == kind_of_text(eb)) by {
            if ea.len() == 3 {
                lemma_fold_byte(ea[0], eb[0]);
                lemma_fold_byte(ea[1], eb[1]);
                lemma_fold_byte(ea[2], eb[2]);
                if code_of(ea) is Some {
                    let ca = code_of(ea)->Some_0;
                    let cb = code_of(eb)->Some_0;
                    assert(ca.folded() == cb.folded());
                }
            }
        }
        let sa = stem_of(a);
        let sb = stem_of(b);
        assert(sa.len() == sb.len());
        assert forall|k: int| 0 <= k < sa.len() implies fold_char(#[trigger] sa[k]) == fold_char(
            sb[k],
        ) by {
            assert(sa[k] == a[k]);
            assert(sb[k] == b[k]);
        }
        lemma_number_ignores_case(sa, sb);
    }
}

/// Two texts that differ at most in letter case spell the same decimal
/// number, or neither spells one.
pub proof fn lemma_number_ignores_case(a: Seq<char>, b: Seq<char>)
    requires
        same_but_case(a, b),
    ensures
        number_of(a, 10) == number_of(b, 10),
{
    let da = digits_of(a);
    let db = digits_of(b);
    if a.len() > 0 {
        assert(fold_char(a[0]) == fold_char(b[0]));
    }
    assert(da.len() == db.len());
    assert forall|k: int| 0 <= k < da.len() implies fold_char(#[trigger] da[k]) == fold_char(
        db[k],
    ) by {
        if a.len() > 0 && a[0] == '+' {
            assert(da[k] == a[k + 1]);
            assert(db[k] == b[k + 1]);
        } else {
            assert(da[k] == a[k]);
            assert(db[k] == b[k]);
        }
    }
    if all_digits(da, 10) {
        assert forall|k: int| 0 <= k < da.len() implies da[k] == db[k] by {
            assert(digit_value(da[k], 10) is Some);
            assert(fold_char(da[k]) == fold_char(db[k]));
        }
        assert(da =~= db);
    } else if all_digits(db, 10) {
        assert forall|k: int| 0 <= k < da.len() implies da[k] == db[k] by {
            assert(digit_value(db[k], 10) is Some);
            assert(fold_char(da[k]) == fold_char(db[k]));
        }
        assert(da =~= db);
    }
}

} // verus!
