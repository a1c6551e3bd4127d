//! Canonical text of a version.
use vstd::prelude::*;
use crate::text::{decimal, push_char, push_decimal};
use crate::version::{Identifier, IdentifierView, Version, VersionView};

verus! {

pub open spec fn render_identifier(id: IdentifierView) -> Seq<char> {
    match id {
        IdentifierView::Numeric(n) => decimal(n as nat),
        IdentifierView::Alphanumeric(t) => t,
    }
}

/// The identifiers joined by `.`.
pub open spec fn render_identifiers(ids: Seq<IdentifierView>) -> Seq<char>
    decreases ids.len(),
{
    if ids.len() == 0 {
        seq![]
    } else if ids.len() == 1 {
        render_identifier(ids[0])
    } else {
        render_identifier(ids[0]) + seq!['.'] + render_identifiers(ids.drop_first())
    }
}

/// `major.minor.patch`, then `-` and the prerelease if there is one, then `+` and
/// the build metadata if there is any.
pub open spec fn render(v: VersionView) -> Seq<char> {
    decimal(v.major as nat) + seq!['.'] + decimal(v.minor as nat) + seq!['.'] + decimal(v.patch as nat)
        + (if v.prerelease.len() > 0 {
        seq!['-'] + render_identifiers(v.prerelease)
    } else {
        seq![]
    }) + (if v.build.len() > 0 {
        seq!['+'] + render_identifiers(v.build)
    } else {
        seq![]
    })
}

/// Appending one more identifier after a `.`.
pub proof fn lemma_render_identifiers_push(ids: Seq<IdentifierView>, id: IdentifierView)
    requires
        ids.len() > 0,
    ensures
        render_identifiers(ids.push(id)) == render_identifiers(ids) + seq!['.'] + render_identifier(id),
    decreases ids.len(),
{
    let longer = ids.push(id);
    assert(longer.drop_first() == ids.drop_first().push(id));
    assert(longer[0] == ids[0]);
    let head = render_identifier(ids[0]) + seq!['.'];
    if ids.len() == 1 {
        assert(ids.drop_first().push(id) == seq![id]);
        assert(render_identifiers(seq![id]) == render_identifier(id));
    } else {
        lemma_render_identifiers_push(ids.drop_first(), id);
        let rest = render_identifiers(ids.drop_first());
        assert(head + (rest + seq!['.'] + render_identifier(id)) =~= (head + rest) + seq!['.']
            + render_identifier(id));
    }
}

fn push_identifier(s: &mut String, id: &Identifier)
    ensures
        final(s)@ == old(s)@ + render_identifier(id@),
{
    match id {
        Identifier::Numeric(n) => push_decimal(s, *n),
        Identifier::Alphanumeric(t) => {
            let ghost start = s@;
            for c in it: t.as_str().chars()
                invariant
                    s@ == start + it.seq().take(it.index() as int),
            {
                proof {
                    assert(it.seq().take(it.index() + 1) == it.seq().take(it.index() as int).push(c));
                }
                push_char(s, c);
            }
        },
    }
}

fn push_identifiers(s: &mut String, ids: &Vec<Identifier>)
    ensures
        final(s)@ == old(s)@ + render_identifiers(ids@.map_values(|i: Identifier| i@)),
{
    let ghost start = s@;
    let ghost all = ids@.map_values(|i: Identifier| i@);
    let mut i: usize = 0;
    assert(all.take(0) == Seq::<IdentifierView>::empty());
    while i < ids.len()
        invariant
            all == ids@.map_values(|i: Identifier| i@),
            i <= ids.len(),
            s@ == start + render_identifiers(all.take(i as int)),
        decreases ids.len() - i,
    {
        let ghost before = s@;
        if i > 0 {
            push_char(s, '.');
        }
        push_identifier(s, &ids[i]);
        proof {
            let done = all.take(i as int);
            assert(all.take(i + 1) == done.push(all[i as int]));
            if i > 0 {
                lemma_render_identifiers_push(done, all[i as int]);
            } else {
                assert(done.push(all[i as int]) == seq![all[i as int]]);
            }
        }
        i = i + 1;
    }
    assert(all.take(i as int) == all);
}

impl Version {
    /// The canonical text of this version (without any leading `v`).
    pub fn to_string(&self) -> (r: String)
        ensures
            r@ == render(self@),
    {
        let mut s = String::new();
        push_decimal(&mut s, self.major);
        push_char(&mut s, '.');
        push_decimal(&mut s, self.minor);
        push_char(&mut s, '.');
        push_decimal(&mut s, self.patch);
        if self.prerelease.len() > 0 {
            push_char(&mut s, '-');
            push_identifiers(&mut s, &self.prerelease);
        }
        if self.build.len() > 0 {
            push_char(&mut s, '+');
            push_identifiers(&mut s, &self.build);
        }
        s
    }
}

} // verus!
