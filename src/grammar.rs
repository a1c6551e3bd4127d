//! What parsing a version text yields: the result, or the first violation of the grammar.
use vstd::prelude::*;
use crate::text::{all_digits, has_leading_zero, is_digit, is_ident_char, value_of};
use crate::version::{identifier_wf, IdentifierView, VersionView};

verus! {

/// Why a text is not a valid version.
#[derive(Debug, Clone, Copy, PartialEq, Eq, Structural)]
pub enum ParseError {
    /// The text ends where a number, a period or an identifier is required.
    UnexpectedEndOfInput,
    /// A character that the grammar does not permit at this place.
    InvalidCharacter,
    /// A number or numeric prerelease identifier with a superfluous leading zero.
    LeadingZero,
    /// An identifier of length zero before a `.` or `+`.
    EmptyIdentifier,
    /// A number that does not fit in 64 bits.
    NumericOverflow,
    /// Text after a complete version core that starts neither prerelease nor build.
    ExtraneousInput,
    /// A second `+` after the build metadata began.
    MisorderedSection,
}

/// The end of the run of digits that starts at `i`.
pub open spec fn digits_end(s: Seq<char>, i: int) -> int
    decreases s.len() - i,
{
    if 0 <= i < s.len() && is_digit(s[i]) {
        digits_end(s, i + 1)
    } else {
        i
    }
}

/// The end of the run of identifier characters that starts at `i`.
pub open spec fn ident_end(s: Seq<char>, i: int) -> int
    decreases s.len() - i,
{
    if 0 <= i < s.len() && is_ident_char(s[i]) {
        ident_end(s, i + 1)
    } else {
        i
    }
}

/// A number of the version core at `i`: its value and where it ends.
pub open spec fn read_number(s: Seq<char>, i: int) -> Result<(u64, int), ParseError> {
    let j = digits_end(s, i);
    let t = s.subrange(i, j);
    if i >= s.len() {
        Err(ParseError::UnexpectedEndOfInput)
    } else if j == i {
        Err(ParseError::InvalidCharacter)
    } else if has_leading_zero(t) {
        Err(ParseError::LeadingZero)
    } else if value_of(t) > u64::MAX {
        Err(ParseError::NumericOverflow)
    } else {
        Ok((value_of(t) as u64, j))
    }
}

/// The period at `i` that separates numbers of the core.
pub open spec fn read_dot(s: Seq<char>, i: int) -> Result<int, ParseError> {
    if i >= s.len() {
        Err(ParseError::UnexpectedEndOfInput)
    } else if s[i] != '.' {
        Err(ParseError::InvalidCharacter)
    } else {
        Ok(i + 1)
    }
}

/// `major.minor.patch` at `i`, and where it ends.
pub open spec fn read_core(s: Seq<char>, i: int) -> Result<(u64, u64, u64, int), ParseError> {
    match read_number(s, i) {
        Err(e) => Err(e),
        Ok((major, a)) => match read_dot(s, a) {
            Err(e) => Err(e),
            Ok(b) => match read_number(s, b) {
                Err(e) => Err(e),
                Ok((minor, c)) => match read_dot(s, c) {
                    Err(e) => Err(e),
                    Ok(d) => match read_number(s, d) {
                        Err(e) => Err(e),
                        Ok((patch, k)) => Ok((major, minor, patch, k)),
                    },
                },
            },
        },
    }
}

/// What a non-empty identifier text stands for. A prerelease identifier of digits
/// must be a canonical number that fits in 64 bits; a build identifier of digits
/// that is not one is kept as text.
pub open spec fn classify(t: Seq<char>, build: bool) -> Result<IdentifierView, ParseError> {
    if all_digits(t) && !has_leading_zero(t) && value_of(t) <= u64::MAX {
        Ok(IdentifierView::Numeric(value_of(t) as u64))
    } else if !all_digits(t) || build {
        Ok(IdentifierView::Alphanumeric(t))
    } else if has_leading_zero(t) {
        Err(ParseError::LeadingZero)
    } else {
        Err(ParseError::NumericOverflow)
    }
}

/// One identifier at `i`, and where it ends.
pub open spec fn read_ident(s: Seq<char>, i: int, build: bool) -> Result<(IdentifierView, int), ParseError> {
    let j = ident_end(s, i);
    if j == i {
        if i >= s.len() {
            Err(ParseError::UnexpectedEndOfInput)
        } else if s[i] == '.' || s[i] == '+' {
            Err(ParseError::EmptyIdentifier)
        } else {
            Err(ParseError::InvalidCharacter)
        }
    } else {
        match classify(s.subrange(i, j), build) {
            Err(e) => Err(e),
            Ok(id) => Ok((id, j)),
        }
    }
}

/// Dot-separated identifiers from `i`, and where the list ends.
pub open spec fn read_idents(s: Seq<char>, i: int, build: bool) -> Result<(Seq<IdentifierView>, int), ParseError>
    decreases s.len() - i,
    via read_idents_decreases
{
    match read_ident(s, i, build) {
        Err(e) => Err(e),
        Ok((id, j)) => if j < s.len() && s[j] == '.' {
            match read_idents(s, j + 1, build) {
                Err(e) => Err(e),
                Ok((rest, k)) => Ok((seq![id] + rest, k)),
            }
        } else {
            Ok((seq![id], j))
        },
    }
}

pub proof fn lemma_ident_end(s: Seq<char>, i: int)
    requires
        0 <= i <= s.len(),
    ensures
        i <= ident_end(s, i) <= s.len(),
        forall|k: int| i <= k < ident_end(s, i) ==> is_ident_char(#[trigger] s[k]),
        ident_end(s, i) < s.len() ==> !is_ident_char(s[ident_end(s, i)]),
    decreases s.len() - i,
{
    if i < s.len() && is_ident_char(s[i]) {
        lemma_ident_end(s, i + 1);
    }
}

pub proof fn lemma_digits_end(s: Seq<char>, i: int)
    requires
        0 <= i <= s.len(),
    ensures
        i <= digits_end(s, i) <= s.len(),
        forall|k: int| i <= k < digits_end(s, i) ==> is_digit(#[trigger] s[k]),
        digits_end(s, i) < s.len() ==> !is_digit(s[digits_end(s, i)]),
    decreases s.len() - i,
{
    if i < s.len() && is_digit(s[i]) {
        lemma_digits_end(s, i + 1);
    }
}

#[via_fn]
proof fn read_idents_decreases(s: Seq<char>, i: int, build: bool) {
    if 0 <= i <= s.len() {
        lemma_ident_end(s, i);
    }
}

/// Build metadata from `i` up to the end of the text.
pub open spec fn read_build_section(s: Seq<char>, i: int) -> Result<Seq<IdentifierView>, ParseError> {
    match read_idents(s, i, true) {
        Err(e) => Err(e),
        Ok((build, k)) => if k >= s.len() {
            Ok(build)
        } else if s[k] == '+' {
            Err(ParseError::MisorderedSection)
        } else {
            Err(ParseError::InvalidCharacter)
        },
    }
}

/// Where the version core starts: after one optional leading `v`.
pub open spec fn core_start(s: Seq<char>) -> int {
    if s.len() > 0 && s[0] == 'v' {
        1
    } else {
        0
    }
}

/// The version that `s` denotes, or the first violation of the grammar in it.
pub open spec fn parse_text(s: Seq<char>) -> Result<VersionView, ParseError> {
    match read_core(s, core_start(s)) {
        Err(e) => Err(e),
        Ok((major, minor, patch, k)) => {
            let version = |prerelease: Seq<IdentifierView>, build: Seq<IdentifierView>|
                VersionView { major, minor, patch, prerelease, build };
            if k >= s.len() {
                Ok(version(seq![], seq![]))
            } else if s[k] == '-' {
                match read_idents(s, k + 1, false) {
                    Err(e) => Err(e),
                    Ok((pre, m)) => if m >= s.len() {
                        Ok(version(pre, seq![]))
                    } else if s[m] == '+' {
                        match read_build_section(s, m + 1) {
                            Err(e) => Err(e),
                            Ok(build) => Ok(version(pre, build)),
                        }
                    } else {
                        Err(ParseError::InvalidCharacter)
                    },
                }
            } else if s[k] == '+' {
                match read_build_section(s, k + 1) {
                    Err(e) => Err(e),
                    Ok(build) => Ok(version(seq![], build)),
                }
            } else {
                Err(ParseError::ExtraneousInput)
            }
        },
    }
}

proof fn lemma_ident_wf(s: Seq<char>, i: int, build: bool)
    requires
        0 <= i <= s.len(),
        read_ident(s, i, build) is Ok,
    ensures
        identifier_wf(read_ident(s, i, build)->Ok_0.0, build),
{
    lemma_ident_end(s, i);
    let j = ident_end(s, i);
    let t = s.subrange(i, j);
    assert forall|k: int| 0 <= k < t.len() implies is_ident_char(#[trigger] t[k]) by {
        assert(t[k] == s[i + k]);
    }
}

proof fn lemma_idents_wf(s: Seq<char>, i: int, build: bool)
    requires
        0 <= i <= s.len(),
        read_idents(s, i, build) is Ok,
    ensures
        ({
            let (ids, k) = read_idents(s, i, build)->Ok_0;
            &&& i <= k <= s.len()
            &&& forall|n: int| 0 <= n < ids.len() ==> identifier_wf(#[trigger] ids[n], build)
        }),
    decreases s.len() - i,
{
    lemma_ident_end(s, i);
    lemma_ident_wf(s, i, build);
    let (id, j) = read_ident(s, i, build)->Ok_0;
    if j < s.len() && s[j] == '.' {
        lemma_idents_wf(s, j + 1, build);
        let (rest, k) = read_idents(s, j + 1, build)->Ok_0;
        let ids = seq![id] + rest;
        assert forall|n: int| 0 <= n < ids.len() implies identifier_wf(#[trigger] ids[n], build) by {
            if n > 0 {
                assert(ids[n] == rest[n - 1]);
            }
        }
    }
}

/// Whatever parsing yields is well formed.
pub proof fn lemma_parse_text_wf(s: Seq<char>)
    requires
        parse_text(s) is Ok,
    ensures
        parse_text(s)->Ok_0.wf(),
{
    let c = core_start(s);
    let (major, minor, patch, k) = read_core(s, c)->Ok_0;
    lemma_digits_end(s, c);
    let (_, a) = read_number(s, c)->Ok_0;
    lemma_digits_end(s, a + 1);
    let (_, b) = read_number(s, a + 1)->Ok_0;
    lemma_digits_end(s, b + 1);
    if k < s.len() && s[k] == '-' {
        lemma_idents_wf(s, k + 1, false);
        let (_, m) = read_idents(s, k + 1, false)->Ok_0;
        if m < s.len() {
            lemma_idents_wf(s, m + 1, true);
        }
    } else if k < s.len() && s[k] == '+' {
        lemma_idents_wf(s, k + 1, true);
    }
}

} // verus!
