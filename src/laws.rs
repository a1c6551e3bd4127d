//! Properties of precedence, and of parsing and formatting together.
use vstd::prelude::*;
use crate::format::{render, render_identifier, render_identifiers};
use crate::grammar::{
    core_start, digits_end, ident_end, lemma_digits_end, lemma_ident_end, parse_text, read_build_section,
    read_core, read_dot, read_ident, read_idents, read_number,
};
use crate::text::{all_digits, decimal, has_leading_zero, is_ident_char, lemma_decimal_of_value, value_of};
use crate::version::{
    compare_identifier, compare_identifiers, compare_text, precedence,
    IdentifierView, Ordering, VersionView,
};

verus! {

/// Two versions that agree on everything but build metadata.
pub open spec fn same_precedence_fields(a: VersionView, b: VersionView) -> bool {
    a.major == b.major && a.minor == b.minor && a.patch == b.patch && a.prerelease == b.prerelease
}

proof fn lemma_text_reversed(a: Seq<char>, b: Seq<char>)
    ensures
        compare_text(b, a) == compare_text(a, b).reversed(),
        compare_text(a, b) == Ordering::Equal <==> a == b,
    decreases a.len(),
{
    if a.len() > 0 && b.len() > 0 {
        lemma_text_reversed(a.drop_first(), b.drop_first());
        if a[0] == b[0] && a.drop_first() == b.drop_first() {
            assert forall|k: int| 0 <= k < a.len() implies a[k] == b[k] by {
                if k > 0 {
                    assert(a[k] == a.drop_first()[k - 1]);
                    assert(b[k] == b.drop_first()[k - 1]);
                }
            }
            assert(a =~= b);
        }
        if a == b {
            assert(a.drop_first() == b.drop_first());
        }
    } else if a.len() == 0 && b.len() == 0 {
        assert(a =~= b);
    }
}

proof fn lemma_text_transitive(a: Seq<char>, b: Seq<char>, c: Seq<char>)
    requires
        compare_text(a, b) == Ordering::LessThan,
        compare_text(b, c) == Ordering::LessThan,
    ensures
        compare_text(a, c) == Ordering::LessThan,
    decreases a.len(),
{
    if a.len() > 0 && a[0] == b[0] && b[0] == c[0] {
        lemma_text_transitive(a.drop_first(), b.drop_first(), c.drop_first());
    }
}

proof fn lemma_identifier_reversed(a: IdentifierView, b: IdentifierView)
    ensures
        compare_identifier(b, a) == compare_identifier(a, b).reversed(),
        compare_identifier(a, b) == Ordering::Equal <==> a == b,
{
    match (a, b) {
        (IdentifierView::Alphanumeric(x), IdentifierView::Alphanumeric(y)) => lemma_text_reversed(x, y),
        _ => {},
    }
}

proof fn lemma_identifier_transitive(a: IdentifierView, b: IdentifierView, c: IdentifierView)
    requires
        compare_identifier(a, b) == Ordering::LessThan,
        compare_identifier(b, c) == Ordering::LessThan,
    ensures
        compare_identifier(a, c) == Ordering::LessThan,
{
    match (a, b, c) {
        (
            IdentifierView::Alphanumeric(x),
            IdentifierView::Alphanumeric(y),
            IdentifierView::Alphanumeric(z),
        ) => lemma_text_transitive(x, y, z),
        _ => {},
    }
}

proof fn lemma_identifiers_reversed(a: Seq<IdentifierView>, b: Seq<IdentifierView>)
    ensures
        compare_identifiers(b, a) == compare_identifiers(a, b).reversed(),
        compare_identifiers(a, b) == Ordering::Equal <==> a == b,
    decreases a.len(),
{
    if a.len() > 0 && b.len() > 0 {
        lemma_identifier_reversed(a[0], b[0]);
        lemma_identifiers_reversed(a.drop_first(), b.drop_first());
        if a[0] == b[0] && a.drop_first() == b.drop_first() {
            assert forall|k: int| 0 <= k < a.len() implies a[k] == b[k] by {
                if k > 0 {
                    assert(a[k] == a.drop_first()[k - 1]);
                    assert(b[k] == b.drop_first()[k - 1]);
                }
            }
            assert(a =~= b);
        }
        if a == b {
            assert(a.drop_first() == b.drop_first());
        }
    } else if a.len() == 0 && b.len() == 0 {
        assert(a =~= b);
    }
}

proof fn lemma_identifiers_transitive(a: Seq<IdentifierView>, b: Seq<IdentifierView>, c: Seq<IdentifierView>)
    requires
        compare_identifiers(a, b) == Ordering::LessThan,
        compare_identifiers(b, c) == Ordering::LessThan,
    ensures
        compare_identifiers(a, c) == Ordering::LessThan,
    decreases a.len(),
{
    if a.len() > 0 && b.len() > 0 && c.len() > 0 {
        lemma_identifier_reversed(a[0], b[0]);
        lemma_identifier_reversed(b[0], c[0]);
        lemma_identifier_reversed(a[0], c[0]);
        if compare_identifier(a[0], b[0]) == Ordering::LessThan && compare_identifier(b[0], c[0])
            == Ordering::LessThan {
            lemma_identifier_transitive(a[0], b[0], c[0]);
        } else if a[0] == b[0] && b[0] == c[0] {
            lemma_identifiers_transitive(a.drop_first(), b.drop_first(), c.drop_first());
        }
    }
}

/// Every version has equal precedence to itself.
pub proof fn lemma_precedence_reflexive(a: VersionView)
    ensures
        precedence(a, a) == Ordering::Equal,
{
    lemma_identifiers_reversed(a.prerelease, a.prerelease);
}

/// Comparing the other way round gives the reverse outcome, and precedence is equal
/// exactly when major, minor, patch and prerelease are all the same; so exactly one
/// of less, equal and greater holds of any two versions.
pub proof fn lemma_precedence_antisymmetric(a: VersionView, b: VersionView)
    ensures
        precedence(b, a) == precedence(a, b).reversed(),
        precedence(a, b) == Ordering::Equal <==> same_precedence_fields(a, b),
{
    lemma_identifiers_reversed(a.prerelease, b.prerelease);
    if a.prerelease.len() == 0 && b.prerelease.len() == 0 {
        assert(a.prerelease =~= b.prerelease);
    }
}

/// Lower precedence is transitive.
pub proof fn lemma_precedence_transitive(a: VersionView, b: VersionView, c: VersionView)
    requires
        precedence(a, b) == Ordering::LessThan,
        precedence(b, c) == Ordering::LessThan,
    ensures
        precedence(a, c) == Ordering::LessThan,
{
    if a.major == b.major && b.major == c.major && a.minor == b.minor && b.minor == c.minor && a.patch
        == b.patch && b.patch == c.patch {
        if a.prerelease.len() > 0 && b.prerelease.len() > 0 && c.prerelease.len() > 0 {
            lemma_identifiers_transitive(a.prerelease, b.prerelease, c.prerelease);
        }
    }
}

/// Equal precedence is transitive.
pub proof fn lemma_precedence_equal_transitive(a: VersionView, b: VersionView, c: VersionView)
    requires
        precedence(a, b) == Ordering::Equal,
        precedence(b, c) == Ordering::Equal,
    ensures
        precedence(a, c) == Ordering::Equal,
{
    lemma_precedence_antisymmetric(a, b);
    lemma_precedence_antisymmetric(b, c);
    lemma_precedence_antisymmetric(a, c);
}

/// Replacing the build metadata of either version never changes the outcome.
pub proof fn lemma_build_ignored(a: VersionView, b: VersionView, a2: VersionView, b2: VersionView)
    requires
        same_precedence_fields(a, a2),
        same_precedence_fields(b, b2),
    ensures
        precedence(a, b) == precedence(a2, b2),
{
}

/// A release ranks above every prerelease of the same major, minor and patch.
pub proof fn lemma_release_above_prerelease(a: VersionView, b: VersionView)
    requires
        a.major == b.major,
        a.minor == b.minor,
        a.patch == b.patch,
        a.prerelease.len() == 0,
        b.prerelease.len() > 0,
    ensures
        precedence(a, b) == Ordering::GreaterThan,
        precedence(b, a) == Ordering::LessThan,
{
}

proof fn lemma_number_text(s: Seq<char>, i: int)
    requires
        0 <= i,
        read_number(s, i) is Ok,
    ensures
        i < read_number(s, i)->Ok_0.1 <= s.len(),
        s.subrange(i, read_number(s, i)->Ok_0.1) == decimal(read_number(s, i)->Ok_0.0 as nat),
{
    lemma_digits_end(s, i);
    let j = digits_end(s, i);
    let t = s.subrange(i, j);
    assert(all_digits(t));
    lemma_decimal_of_value(t);
}

proof fn lemma_core_text(s: Seq<char>, i: int)
    requires
        0 <= i,
        read_core(s, i) is Ok,
    ensures
        ({
            let (major, minor, patch, k) = read_core(s, i)->Ok_0;
            &&& i < k <= s.len()
            &&& s.subrange(i, k) == decimal(major as nat) + seq!['.'] + decimal(minor as nat) + seq!['.']
                + decimal(patch as nat)
        }),
{
    let (major, a) = read_number(s, i)->Ok_0;
    lemma_number_text(s, i);
    let b = read_dot(s, a)->Ok_0;
    let (minor, c) = read_number(s, b)->Ok_0;
    lemma_number_text(s, b);
    let d = read_dot(s, c)->Ok_0;
    let (patch, k) = read_number(s, d)->Ok_0;
    lemma_number_text(s, d);
    assert(s.subrange(a, b) == seq!['.']);
    assert(s.subrange(c, d) == seq!['.']);
    assert(s.subrange(i, k) =~= s.subrange(i, a) + s.subrange(a, b) + s.subrange(b, c) + s.subrange(c, d)
        + s.subrange(d, k));
}

proof fn lemma_ident_text(s: Seq<char>, i: int, build: bool)
    requires
        0 <= i <= s.len(),
        read_ident(s, i, build) is Ok,
    ensures
        ({
            let (id, j) = read_ident(s, i, build)->Ok_0;
            &&& i < j <= s.len()
            &&& j < s.len() ==> !is_ident_char(s[j])
            &&& s.subrange(i, j) == render_identifier(id)
        }),
{
    lemma_ident_end(s, i);
    let j = ident_end(s, i);
    let t = s.subrange(i, j);
    if all_digits(t) && !has_leading_zero(t) && value_of(t) <= u64::MAX {
        lemma_decimal_of_value(t);
    }
}

proof fn lemma_idents_text(s: Seq<char>, i: int, build: bool)
    requires
        0 <= i <= s.len(),
        read_idents(s, i, build) is Ok,
    ensures
        ({
            let (ids, k) = read_idents(s, i, build)->Ok_0;
            &&& ids.len() > 0
            &&& i < k <= s.len()
            &&& k < s.len() ==> !is_ident_char(s[k]) && s[k] != '.'
            &&& s.subrange(i, k) == render_identifiers(ids)
        }),
    decreases s.len() - i,
{
    lemma_ident_text(s, i, build);
    let (id, j) = read_ident(s, i, build)->Ok_0;
    if j < s.len() && s[j] == '.' {
        lemma_idents_text(s, j + 1, build);
        let (rest, k) = read_idents(s, j + 1, build)->Ok_0;
        let ids = seq![id] + rest;
        assert(ids.drop_first() == rest);
        assert(ids[0] == id);
        assert(s.subrange(j, j + 1) == seq!['.']);
        assert(s.subrange(i, k) =~= s.subrange(i, j) + s.subrange(j, j + 1) + s.subrange(j + 1, k));
    }
}

proof fn lemma_build_text(s: Seq<char>, i: int)
    requires
        0 <= i <= s.len(),
        read_build_section(s, i) is Ok,
    ensures
        read_build_section(s, i)->Ok_0.len() > 0,
        s.subrange(i, s.len() as int) == render_identifiers(read_build_section(s, i)->Ok_0),
{
    lemma_idents_text(s, i, true);
}

/// The text of a version core followed by optional prerelease and build sections.
proof fn lemma_sections(s: Seq<char>, k: int, m: int, core: Seq<char>, pre: Seq<char>, build: Seq<char>)
    requires
        0 <= k <= m <= s.len(),
        s.subrange(0, k) == core,
        k == m || (k < m && s[k] == '-' && s.subrange(k + 1, m) == pre),
        m == s.len() || (m < s.len() && s[m] == '+' && s.subrange(m + 1, s.len() as int) == build),
    ensures
        s == core + (if k < m {
            seq!['-'] + pre
        } else {
            seq![]
        }) + (if m < s.len() {
            seq!['+'] + build
        } else {
            seq![]
        }),
{
    let n = s.len() as int;
    let p = if k < m {
        seq!['-'] + pre
    } else {
        seq![]
    };
    let b = if m < n {
        seq!['+'] + build
    } else {
        seq![]
    };
    assert(s.subrange(k, m) =~= p);
    assert(s.subrange(m, n) =~= b);
    assert(s =~= s.subrange(0, k) + s.subrange(k, m) + s.subrange(m, n));
}

/// Formatting what was parsed from a text without a leading `v` gives that text back.
pub proof fn lemma_parse_format_round_trip(s: Seq<char>)
    requires
        parse_text(s) is Ok,
        s.len() == 0 || s[0] != 'v',
    ensures
        render(parse_text(s)->Ok_0) == s,
{
    let v = parse_text(s)->Ok_0;
    assert(core_start(s) == 0);
    lemma_core_text(s, 0);
    let (major, minor, patch, k) = read_core(s, 0)->Ok_0;
    let core = s.subrange(0, k);
    let n = s.len() as int;
    assert(v.major == major && v.minor == minor && v.patch == patch);
    if k >= n {
        assert(v.prerelease.len() == 0 && v.build.len() == 0);
        lemma_sections(s, k, k, core, seq![], seq![]);
    } else if s[k] == '-' {
        lemma_idents_text(s, k + 1, false);
        let (pre, m) = read_idents(s, k + 1, false)->Ok_0;
        assert(v.prerelease == pre);
        if m >= n {
            assert(v.build.len() == 0);
            lemma_sections(s, k, m, core, render_identifiers(pre), seq![]);
        } else {
            lemma_build_text(s, m + 1);
            let build = read_build_section(s, m + 1)->Ok_0;
            assert(v.build == build);
            lemma_sections(s, k, m, core, render_identifiers(pre), render_identifiers(build));
        }
    } else {
        lemma_build_text(s, k + 1);
        let build = read_build_section(s, k + 1)->Ok_0;
        assert(v.prerelease.len() == 0 && v.build == build);
        lemma_sections(s, k, k, core, seq![], render_identifiers(build));
    }
}

} // verus!
