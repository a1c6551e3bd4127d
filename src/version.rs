//! The version record, its identifiers, and precedence between versions.
use vstd::prelude::*;
use vstd::string::StringExecFns;
use crate::text::{all_digits, has_leading_zero, is_ident_char, value_of};

verus! {

/// One dot-separated prerelease or build identifier.
#[derive(Debug)]
pub enum Identifier {
    /// Digits without a superfluous leading zero, held as their value.
    Numeric(u64),
    /// Any other identifier text.
    Alphanumeric(String),
}

/// What an identifier stands for: a value, or the characters of its text.
pub enum IdentifierView {
    Numeric(u64),
    Alphanumeric(Seq<char>),
}

impl View for Identifier {
    type V = IdentifierView;

    open spec fn view(&self) -> IdentifierView {
        match self {
            Identifier::Numeric(n) => IdentifierView::Numeric(*n),
            Identifier::Alphanumeric(t) => IdentifierView::Alphanumeric(t@),
        }
    }
}

/// A parsed semantic version. Build metadata is kept for display only.
#[derive(Debug)]
pub struct Version {
    pub major: u64,
    pub minor: u64,
    pub patch: u64,
    pub prerelease: Vec<Identifier>,
    pub build: Vec<Identifier>,
}

pub struct VersionView {
    pub major: u64,
    pub minor: u64,
    pub patch: u64,
    pub prerelease: Seq<IdentifierView>,
    pub build: Seq<IdentifierView>,
}

impl View for Version {
    type V = VersionView;

    open spec fn view(&self) -> VersionView {
        VersionView {
            major: self.major,
            minor: self.minor,
            patch: self.patch,
            prerelease: self.prerelease@.map_values(|i: Identifier| i@),
            build: self.build@.map_values(|i: Identifier| i@),
        }
    }
}

/// An identifier as the grammar produces it. Alphanumeric text is non-empty, made of
/// ASCII letters, digits and `-`, and is not a number that could be held as `Numeric`:
/// in a prerelease it holds a non-digit; in build metadata, digits with a leading zero
/// or past 64 bits are also kept as text.
pub open spec fn identifier_wf(id: IdentifierView, build: bool) -> bool {
    match id {
        IdentifierView::Numeric(_) => true,
        IdentifierView::Alphanumeric(t) => {
            &&& t.len() > 0
            &&& forall|k: int| 0 <= k < t.len() ==> is_ident_char(#[trigger] t[k])
            &&& if build {
                !(all_digits(t) && !has_leading_zero(t) && value_of(t) <= u64::MAX)
            } else {
                !all_digits(t)
            }
        },
    }
}

impl VersionView {
    /// Every prerelease and build identifier is well formed.
    pub open spec fn wf(self) -> bool {
        &&& forall|k: int| 0 <= k < self.prerelease.len() ==> identifier_wf(#[trigger] self.prerelease[k], false)
        &&& forall|k: int| 0 <= k < self.build.len() ==> identifier_wf(#[trigger] self.build[k], true)
    }
}

impl Version {
    /// The version could have come from parsing: its identifiers are well formed.
    pub open spec fn wf(&self) -> bool {
        self@.wf()
    }
}

/// The outcome of comparing the precedence of two versions.
#[derive(Debug, Clone, Copy, PartialEq, Eq, Structural)]
pub enum Ordering {
    LessThan,
    GreaterThan,
    Equal,
}

impl Ordering {
    /// Words for the outcome: `less than`, `greater than` or `equal`.
    pub fn to_string(&self) -> (r: String)
        ensures
            r@ == (match self {
                Ordering::LessThan => "less than"@,
                Ordering::GreaterThan => "greater than"@,
                Ordering::Equal => "equal"@,
            }),
    {
        match self {
            Ordering::LessThan => String::from_str("less than"),
            Ordering::GreaterThan => String::from_str("greater than"),
            Ordering::Equal => String::from_str("equal"),
        }
    }

    /// The same outcome seen from the other side.
    pub open spec fn reversed(self) -> Ordering {
        match self {
            Ordering::LessThan => Ordering::GreaterThan,
            Ordering::GreaterThan => Ordering::LessThan,
            Ordering::Equal => Ordering::Equal,
        }
    }
}

pub open spec fn compare_nat(a: nat, b: nat) -> Ordering {
    if a < b {
        Ordering::LessThan
    } else if a > b {
        Ordering::GreaterThan
    } else {
        Ordering::Equal
    }
}

/// Lexical order by character code, a proper prefix coming first.
pub open spec fn compare_text(a: Seq<char>, b: Seq<char>) -> Ordering
    decreases a.len(),
{
    if a.len() == 0 {
        if b.len() == 0 {
            Ordering::Equal
        } else {
            Ordering::LessThan
        }
    } else if b.len() == 0 {
        Ordering::GreaterThan
    } else if a[0] < b[0] {
        Ordering::LessThan
    } else if a[0] > b[0] {
        Ordering::GreaterThan
    } else {
        compare_text(a.drop_first(), b.drop_first())
    }
}

/// Numeric identifiers come before alphanumeric ones.
pub open spec fn compare_identifier(a: IdentifierView, b: IdentifierView) -> Ordering {
    match (a, b) {
        (IdentifierView::Numeric(x), IdentifierView::Numeric(y)) => compare_nat(x as nat, y as nat),
        (IdentifierView::Numeric(_), IdentifierView::Alphanumeric(_)) => Ordering::LessThan,
        (IdentifierView::Alphanumeric(_), IdentifierView::Numeric(_)) => Ordering::GreaterThan,
        (IdentifierView::Alphanumeric(x), IdentifierView::Alphanumeric(y)) => compare_text(x, y),
    }
}

/// Element by element; where one list is a proper prefix of the other, it comes first.
pub open spec fn compare_identifiers(a: Seq<IdentifierView>, b: Seq<IdentifierView>) -> Ordering
    decreases a.len(),
{
    if a.len() == 0 {
        if b.len() == 0 {
            Ordering::Equal
        } else {
            Ordering::LessThan
        }
    } else if b.len() == 0 {
        Ordering::GreaterThan
    } else if compare_identifier(a[0], b[0]) != Ordering::Equal {
        compare_identifier(a[0], b[0])
    } else {
        compare_identifiers(a.drop_first(), b.drop_first())
    }
}

/// A version without prerelease ranks above one with a prerelease.
pub open spec fn compare_prerelease(a: Seq<IdentifierView>, b: Seq<IdentifierView>) -> Ordering {
    if a.len() == 0 && b.len() == 0 {
        Ordering::Equal
    } else if a.len() == 0 {
        Ordering::GreaterThan
    } else if b.len() == 0 {
        Ordering::LessThan
    } else {
        compare_identifiers(a, b)
    }
}

/// Precedence: major, minor, patch, then prerelease; build metadata takes no part.
pub open spec fn precedence(a: VersionView, b: VersionView) -> Ordering {
    if a.major != b.major {
        compare_nat(a.major as nat, b.major as nat)
    } else if a.minor != b.minor {
        compare_nat(a.minor as nat, b.minor as nat)
    } else if a.patch != b.patch {
        compare_nat(a.patch as nat, b.patch as nat)
    } else {
        compare_prerelease(a.prerelease, b.prerelease)
    }
}

fn compare_u64(a: u64, b: u64) -> (r: Ordering)
    ensures
        r == compare_nat(a as nat, b as nat),
{
    if a < b {
        Ordering::LessThan
    } else if a > b {
        Ordering::GreaterThan
    } else {
        Ordering::Equal
    }
}

fn compare_strings(a: &String, b: &String) -> (r: Ordering)
    ensures
        r == compare_text(a@, b@),
{
    let mut ca: Vec<char> = Vec::new();
    for c in it: a.as_str().chars()
        invariant
            ca@ == it.seq().take(it.index() as int),
    {
        ca.push(c);
    }
    let mut cb: Vec<char> = Vec::new();
    for c in it: b.as_str().chars()
        invariant
            cb@ == it.seq().take(it.index() as int),
    {
        cb.push(c);
    }
    assert(ca@ == a@ && cb@ == b@);
    let mut i: usize = 0;
    assert(a@.skip(0) == a@ && b@.skip(0) == b@);
    while i < ca.len() && i < cb.len()
        invariant
            ca@ == a@,
            cb@ == b@,
            0 <= i <= ca.len(),
            i <= cb.len(),
            compare_text(a@, b@) == compare_text(a@.skip(i as int), b@.skip(i as int)),
        decreases ca.len() - i,
    {
        let x = ca[i];
        let y = cb[i];
        assert(a@.skip(i as int)[0] == x && b@.skip(i as int)[0] == y);
        if x < y {
            return Ordering::LessThan;
        } else if x > y {
            return Ordering::GreaterThan;
        }
        assert(a@.skip(i as int).drop_first() == a@.skip(i + 1));
        assert(b@.skip(i as int).drop_first() == b@.skip(i + 1));
        i = i + 1;
    }
    if i < ca.len() {
        Ordering::GreaterThan
    } else if i < cb.len() {
        Ordering::LessThan
    } else {
        Ordering::Equal
    }
}

fn compare_identifier_exec(a: &Identifier, b: &Identifier) -> (r: Ordering)
    ensures
        r == compare_identifier(a@, b@),
{
    match (a, b) {
        (Identifier::Numeric(x), Identifier::Numeric(y)) => compare_u64(*x, *y),
        (Identifier::Numeric(_), Identifier::Alphanumeric(_)) => Ordering::LessThan,
        (Identifier::Alphanumeric(_), Identifier::Numeric(_)) => Ordering::GreaterThan,
        (Identifier::Alphanumeric(x), Identifier::Alphanumeric(y)) => compare_strings(x, y),
    }
}

fn compare_prerelease_exec(a: &Vec<Identifier>, b: &Vec<Identifier>) -> (r: Ordering)
    ensures
        r == compare_prerelease(
            a@.map_values(|i: Identifier| i@),
            b@.map_values(|i: Identifier| i@),
        ),
{
    let ghost va = a@.map_values(|i: Identifier| i@);
    let ghost vb = b@.map_values(|i: Identifier| i@);
    if a.len() == 0 && b.len() == 0 {
        return Ordering::Equal;
    } else if a.len() == 0 {
        return Ordering::GreaterThan;
    } else if b.len() == 0 {
        return Ordering::LessThan;
    }
    let mut i: usize = 0;
    assert(va.skip(0) == va && vb.skip(0) == vb);
    while i < a.len() && i < b.len()
        invariant
            va == a@.map_values(|i: Identifier| i@),
            vb == b@.map_values(|i: Identifier| i@),
            a.len() > 0 && b.len() > 0,
            0 <= i <= a.len(),
            i <= b.len(),
            compare_identifiers(va, vb) == compare_identifiers(va.skip(i as int), vb.skip(i as int)),
        decreases a.len() - i,
    {
        let r = compare_identifier_exec(&a[i], &b[i]);
        assert(va.skip(i as int)[0] == a@[i as int]@ && vb.skip(i as int)[0] == b@[i as int]@);
        if r != Ordering::Equal {
            return r;
        }
        assert(va.skip(i as int).drop_first() == va.skip(i + 1));
        assert(vb.skip(i as int).drop_first() == vb.skip(i + 1));
        i = i + 1;
    }
    if i < a.len() {
        Ordering::GreaterThan
    } else if i < b.len() {
        Ordering::LessThan
    } else {
        Ordering::Equal
    }
}

impl Version {
    /// Compares the precedence of `self` against `other`.
    pub fn compare_to(&self, other: &Version) -> (r: Ordering)
        ensures
            r == precedence(self@, other@),
    {
        if self.major != other.major {
            compare_u64(self.major, other.major)
        } else if self.minor != other.minor {
            compare_u64(self.minor, other.minor)
        } else if self.patch != other.patch {
            compare_u64(self.patch, other.patch)
        } else {
            compare_prerelease_exec(&self.prerelease, &other.prerelease)
        }
    }
}

} // verus!
