use semver_core::{Ordering, Version};

fn cmp(a: &str, b: &str) -> Ordering {
    Version::parse(a).unwrap().compare_to(&Version::parse(b).unwrap())
}

#[test]
fn specification_chain_ascends() {
    let chain = [
        "1.0.0-alpha",
        "1.0.0-alpha.1",
        "1.0.0-alpha.beta",
        "1.0.0-beta",
        "1.0.0-beta.2",
        "1.0.0-beta.11",
        "1.0.0-rc.1",
        "1.0.0",
    ];
    for i in 0..chain.len() {
        for j in 0..chain.len() {
            let expected = if i < j {
                Ordering::LessThan
            } else if i > j {
                Ordering::GreaterThan
            } else {
                Ordering::Equal
            };
            assert_eq!(cmp(chain[i], chain[j]), expected, "{} vs {}", chain[i], chain[j]);
        }
    }
}

#[test]
fn patch_decides() {
    assert_eq!(cmp("2.1.1", "2.1.0"), Ordering::GreaterThan);
}

#[test]
fn build_metadata_is_ignored() {
    assert_eq!(cmp("1.0.0", "1.0.0+build5"), Ordering::Equal);
    assert_eq!(cmp("1.0.0-rc.1+a", "1.0.0-rc.1+b.2"), Ordering::Equal);
    assert_eq!(cmp("1.0.0-rc.1+zzz", "1.0.0-rc.2+aaa"), cmp("1.0.0-rc.1", "1.0.0-rc.2"));
}

#[test]
fn core_compares_numerically() {
    assert_eq!(cmp("1.9.0", "1.10.0"), Ordering::LessThan);
    assert_eq!(cmp("2.0.0", "10.0.0"), Ordering::LessThan);
    assert_eq!(cmp("1.0.10", "1.0.9"), Ordering::GreaterThan);
    assert_eq!(cmp("3.0.0", "2.99.99"), Ordering::GreaterThan);
}

#[test]
fn release_ranks_above_prerelease() {
    assert_eq!(cmp("1.0.0", "1.0.0-alpha"), Ordering::GreaterThan);
    assert_eq!(cmp("1.0.0-0", "1.0.0"), Ordering::LessThan);
}

#[test]
fn numeric_identifiers_come_first() {
    assert_eq!(cmp("1.0.0-99", "1.0.0-a"), Ordering::LessThan);
    assert_eq!(cmp("1.0.0-2", "1.0.0-10"), Ordering::LessThan);
    assert_eq!(cmp("1.0.0-a", "1.0.0-1"), Ordering::GreaterThan);
}

#[test]
fn alphanumeric_identifiers_compare_by_ascii() {
    assert_eq!(cmp("1.0.0-Z", "1.0.0-a"), Ordering::LessThan);
    assert_eq!(cmp("1.0.0-a", "1.0.0-aa"), Ordering::LessThan);
    assert_eq!(cmp("1.0.0--", "1.0.0-0a"), Ordering::LessThan);
    assert_eq!(cmp("1.0.0-beta", "1.0.0-alpha"), Ordering::GreaterThan);
}

#[test]
fn shorter_prerelease_prefix_comes_first() {
    assert_eq!(cmp("1.0.0-a.b", "1.0.0-a.b.c"), Ordering::LessThan);
    assert_eq!(cmp("1.0.0-a.b.0", "1.0.0-a.b"), Ordering::GreaterThan);
}

#[test]
fn comparison_is_a_total_order_on_samples() {
    let texts = ["0.9.9", "1.0.0-alpha", "1.0.0-alpha.1", "1.0.0-1", "1.0.0", "1.0.0+x", "1.0.1"];
    for a in texts {
        assert_eq!(cmp(a, a), Ordering::Equal);
        for b in texts {
            let ab = cmp(a, b);
            let ba = cmp(b, a);
            let reversed = match ab {
                Ordering::LessThan => Ordering::GreaterThan,
                Ordering::GreaterThan => Ordering::LessThan,
                Ordering::Equal => Ordering::Equal,
            };
            assert_eq!(ba, reversed);
            for c in texts {
                if ab == Ordering::LessThan && cmp(b, c) == Ordering::LessThan {
                    assert_eq!(cmp(a, c), Ordering::LessThan);
                }
            }
        }
    }
}
