//! Recursive-descent parsing of version text over a one-character-lookahead cursor.
use vstd::prelude::*;
use crate::grammar::{
    core_start, digits_end, ident_end, lemma_digits_end, lemma_ident_end, lemma_parse_text_wf, parse_text,
    read_core, read_dot, read_ident, read_idents, read_number, ParseError,
};
use crate::text::{
    lemma_value_positive,
    all_digits, has_leading_zero, is_digit, is_digit_char, is_ident_character, push_char,
    value_in, value_of,
};
use crate::version::{Identifier, IdentifierView, Version};

verus! {

/// The characters of the input and the position of the next one to read.
struct Cursor {
    chars: Vec<char>,
    pos: usize,
}

impl Cursor {
    spec fn wf(&self) -> bool {
        self.pos <= self.chars.len()
    }

    fn new(text: &str) -> (r: Cursor)
        ensures
            r.chars@ == text@,
            r.pos == 0,
    {
        let mut chars: Vec<char> = Vec::new();
        for c in it: text.chars()
            invariant
                chars@ == it.seq().take(it.index() as int),
        {
            chars.push(c);
        }
        Cursor { chars, pos: 0 }
    }

    /// The next character, without consuming it.
    fn peek(&self) -> (r: Option<char>)
        requires
            self.wf(),
        ensures
            r == (if self.pos < self.chars.len() {
                Some(self.chars@[self.pos as int])
            } else {
                None::<char>
            }),
    {
        if self.pos < self.chars.len() {
            Some(self.chars[self.pos])
        } else {
            None
        }
    }

    fn advance(&mut self)
        requires
            old(self).pos < old(self).chars.len(),
        ensures
            final(self).chars == old(self).chars,
            final(self).pos == old(self).pos + 1,
    {
        self.pos = self.pos + 1;
    }

    fn at_end(&self) -> (r: bool)
        requires
            self.wf(),
        ensures
            r == (self.pos == self.chars.len()),
    {
        self.pos == self.chars.len()
    }
}

/// Moves past a run of digits that starts with `1` to `9`, and returns its value.
fn read_positive_number(cur: &mut Cursor) -> (r: Result<u64, ParseError>)
    requires
        old(cur).wf(),
    ensures
        final(cur).wf(),
        final(cur).chars@ == old(cur).chars@,
        ({
            let s = old(cur).chars@;
            let i = old(cur).pos as int;
            let t = s.subrange(i, digits_end(s, i));
            if i >= s.len() {
                r == Err::<u64, ParseError>(ParseError::UnexpectedEndOfInput)
            } else if !is_digit(s[i]) || s[i] == '0' {
                r == Err::<u64, ParseError>(ParseError::InvalidCharacter)
            } else {
                match r {
                    Ok(v) => v >= 1 && value_of(t) == v as nat && final(cur).pos == digits_end(s, i),
                    Err(e) => value_of(t) > u64::MAX && e == ParseError::NumericOverflow,
                }
            }
        }),
{
    let ghost s = cur.chars@;
    let start = cur.pos;
    match cur.peek() {
        None => {
            return Err(ParseError::UnexpectedEndOfInput);
        },
        Some(c) => {
            if !is_digit_char(c) || c == '0' {
                return Err(ParseError::InvalidCharacter);
            }
        },
    }
    proof {
        lemma_digits_end(s, start as int);
    }
    while cur.pos < cur.chars.len() && is_digit_char(cur.chars[cur.pos])
        invariant
            cur.wf(),
            cur.chars@ == s,
            start <= cur.pos,
            forall|k: int| start <= k < cur.pos ==> is_digit(#[trigger] s[k]),
            digits_end(s, start as int) == digits_end(s, cur.pos as int),
        decreases cur.chars.len() - cur.pos,
    {
        cur.advance();
    }
    let r = value_in(&cur.chars, start, cur.pos);
    proof {
        let t = s.subrange(start as int, cur.pos as int);
        assert(t[0] == s[start as int]);
        lemma_value_positive(t);
    }
    match r {
        Some(v) => Ok(v),
        None => Err(ParseError::NumericOverflow),
    }
}

/// A number of the version core: `0`, or digits that do not start with `0`.
fn read_numeric_identifier(cur: &mut Cursor) -> (r: Result<u64, ParseError>)
    requires
        old(cur).wf(),
    ensures
        final(cur).wf(),
        final(cur).chars@ == old(cur).chars@,
        match read_number(old(cur).chars@, old(cur).pos as int) {
            Ok((v, j)) => r == Ok::<u64, ParseError>(v) && final(cur).pos == j,
            Err(e) => r == Err::<u64, ParseError>(e),
        },
{
    let ghost s = cur.chars@;
    let ghost i = cur.pos as int;
    proof {
        lemma_digits_end(s, i);
    }
    match cur.peek() {
        None => Err(ParseError::UnexpectedEndOfInput),
        Some(c) => {
            if !is_digit_char(c) {
                Err(ParseError::InvalidCharacter)
            } else if c == '0' {
                cur.advance();
                proof {
                    lemma_digits_end(s, i + 1);
                }
                match cur.peek() {
                    Some(d) => {
                        if is_digit_char(d) {
                            return Err(ParseError::LeadingZero);
                        }
                    },
                    None => {},
                }
                let ghost t = s.subrange(i, i + 1);
                assert(t.drop_last().len() == 0 && value_of(t.drop_last()) == 0);
                assert(t.last() == '0');
                Ok(0)
            } else {
                let r = read_positive_number(cur);
                proof {
                    let t = s.subrange(i, digits_end(s, i));
                    assert(t[0] == c);
                }
                r
            }
        },
    }
}

fn read_period(cur: &mut Cursor) -> (r: Result<(), ParseError>)
    requires
        old(cur).wf(),
    ensures
        final(cur).wf(),
        final(cur).chars@ == old(cur).chars@,
        match read_dot(old(cur).chars@, old(cur).pos as int) {
            Ok(j) => r is Ok && final(cur).pos == j,
            Err(e) => r == Err::<(), ParseError>(e),
        },
        // One character is consumed, whether or not it is the period.
        final(cur).pos == (if old(cur).pos < old(cur).chars.len() {
            old(cur).pos + 1
        } else {
            old(cur).pos as int
        }),
{
    match cur.peek() {
        None => Err(ParseError::UnexpectedEndOfInput),
        Some(c) => {
            cur.advance();
            if c == '.' {
                Ok(())
            } else {
                Err(ParseError::InvalidCharacter)
            }
        },
    }
}

fn read_version_core(cur: &mut Cursor) -> (r: Result<(u64, u64, u64), ParseError>)
    requires
        old(cur).wf(),
    ensures
        final(cur).wf(),
        final(cur).chars@ == old(cur).chars@,
        match read_core(old(cur).chars@, old(cur).pos as int) {
            Ok((major, minor, patch, k)) => r == Ok::<(u64, u64, u64), ParseError>((major, minor, patch))
                && final(cur).pos == k,
            Err(e) => r == Err::<(u64, u64, u64), ParseError>(e),
        },
{
    let major = match read_numeric_identifier(cur) {
        Ok(v) => v,
        Err(e) => return Err(e),
    };
    match read_period(cur) {
        Ok(()) => {},
        Err(e) => return Err(e),
    }
    let minor = match read_numeric_identifier(cur) {
        Ok(v) => v,
        Err(e) => return Err(e),
    };
    match read_period(cur) {
        Ok(()) => {},
        Err(e) => return Err(e),
    }
    let patch = match read_numeric_identifier(cur) {
        Ok(v) => v,
        Err(e) => return Err(e),
    };
    Ok((major, minor, patch))
}

/// One identifier of a prerelease (or, with `build`, of build metadata).
fn read_identifier(cur: &mut Cursor, build: bool) -> (r: Result<Identifier, ParseError>)
    requires
        old(cur).wf(),
    ensures
        final(cur).wf(),
        final(cur).chars@ == old(cur).chars@,
        match read_ident(old(cur).chars@, old(cur).pos as int, build) {
            Ok((id, j)) => r is Ok && r->Ok_0@ == id && final(cur).pos == j,
            Err(e) => r is Err && r->Err_0 == e,
        },
{
    let ghost s = cur.chars@;
    let start = cur.pos;
    proof {
        lemma_ident_end(s, start as int);
    }
    let mut text = String::new();
    let mut digits_only = true;
    while cur.pos < cur.chars.len() && is_ident_character(cur.chars[cur.pos])
        invariant
            cur.wf(),
            cur.chars@ == s,
            start <= cur.pos,
            text@ == s.subrange(start as int, cur.pos as int),
            digits_only == all_digits(text@),
            ident_end(s, start as int) == ident_end(s, cur.pos as int),
        decreases cur.chars.len() - cur.pos,
    {
        let c = cur.chars[cur.pos];
        let ghost prev = text@;
        proof {
            assert(s.subrange(start as int, cur.pos + 1) == prev.push(c));
        }
        push_char(&mut text, c);
        digits_only = digits_only && is_digit_char(c);
        proof {
            let t = text@;
            assert(t[prev.len() as int] == c);
            if all_digits(prev) && is_digit(c) {
                assert forall|k: int| 0 <= k < t.len() implies is_digit(#[trigger] t[k]) by {
                    if k < prev.len() {
                        assert(t[k] == prev[k]);
                    }
                }
            } else if all_digits(prev) {
                assert(!is_digit(t[prev.len() as int]));
            } else {
                let k = choose|k: int| 0 <= k < prev.len() && !is_digit(#[trigger] prev[k]);
                assert(t[k] == prev[k]);
            }
        }
        cur.advance();
    }
    let end = cur.pos;
    if end == start {
        return match cur.peek() {
            None => Err(ParseError::UnexpectedEndOfInput),
            Some(c) => {
                if c == '.' || c == '+' {
                    Err(ParseError::EmptyIdentifier)
                } else {
                    Err(ParseError::InvalidCharacter)
                }
            },
        };
    }
    let leading_zero = end - start > 1 && cur.chars[start] == '0';
    assert(leading_zero == has_leading_zero(text@));
    if digits_only && !leading_zero {
        assert forall|k: int| start <= k < end implies is_digit(#[trigger] cur.chars@[k]) by {
            assert(text@[k - start] == cur.chars@[k]);
        }
        match value_in(&cur.chars, start, end) {
            Some(v) => {
                return Ok(Identifier::Numeric(v));
            },
            None => {},
        }
    }
    if !digits_only || build {
        Ok(Identifier::Alphanumeric(text))
    } else if leading_zero {
        Err(ParseError::LeadingZero)
    } else {
        Err(ParseError::NumericOverflow)
    }
}

spec fn after(
    done: Seq<IdentifierView>,
    r: Result<(Seq<IdentifierView>, int), ParseError>,
) -> Result<(Seq<IdentifierView>, int), ParseError> {
    match r {
        Err(e) => Err(e),
        Ok((rest, k)) => Ok((done + rest, k)),
    }
}

spec fn views(ids: Seq<Identifier>) -> Seq<IdentifierView> {
    ids.map_values(|i: Identifier| i@)
}

/// Dot-separated identifiers, up to the first character that continues neither.
fn read_identifiers(cur: &mut Cursor, build: bool) -> (r: Result<Vec<Identifier>, ParseError>)
    requires
        old(cur).wf(),
    ensures
        final(cur).wf(),
        final(cur).chars@ == old(cur).chars@,
        match read_idents(old(cur).chars@, old(cur).pos as int, build) {
            Ok((ids, k)) => r is Ok && views(r->Ok_0@) == ids && final(cur).pos == k,
            Err(e) => r is Err && r->Err_0 == e,
        },
{
    let ghost s = cur.chars@;
    let ghost start = cur.pos as int;
    let mut ids: Vec<Identifier> = Vec::new();
    assert(views(ids@).len() == 0);
    assert forall|x: Seq<IdentifierView>| #[trigger] (views(ids@) + x) == x by {
        assert(views(ids@) + x =~= x);
    }
    loop
        invariant
            cur.wf(),
            cur.chars@ == s,
            s == old(cur).chars@,
            start == old(cur).pos,
            read_idents(s, start, build) == after(views(ids@), read_idents(s, cur.pos as int, build)),
        decreases s.len() - cur.pos,
    {
        let ghost here = cur.pos as int;
        let ghost done = views(ids@);
        proof {
            lemma_ident_end(s, here);
        }
        let id = match read_identifier(cur, build) {
            Ok(id) => id,
            Err(e) => return Err(e),
        };
        let ghost idv = id@;
        ids.push(id);
        assert(views(ids@) == done.push(idv));
        assert(forall|x: Seq<IdentifierView>| #[trigger] (done + (seq![idv] + x)) == done.push(idv) + x) by {
            assert forall|x: Seq<IdentifierView>| #[trigger] (done + (seq![idv] + x)) == done.push(idv) + x by {
                assert(done + (seq![idv] + x) =~= done.push(idv) + x);
            }
        }
        assert(done + seq![idv] == done.push(idv));
        match cur.peek() {
            Some(c) => {
                if c == '.' {
                    cur.advance();
                } else {
                    return Ok(ids);
                }
            },
            None => {
                return Ok(ids);
            },
        }
    }
}

/// `<pre-release> ::= <dot-separated pre-release identifiers>`
fn read_prerelease(cur: &mut Cursor) -> (r: Result<Vec<Identifier>, ParseError>)
    requires
        old(cur).wf(),
    ensures
        final(cur).wf(),
        final(cur).chars@ == old(cur).chars@,
        match read_idents(old(cur).chars@, old(cur).pos as int, false) {
            Ok((ids, k)) => r is Ok && views(r->Ok_0@) == ids && final(cur).pos == k,
            Err(e) => r is Err && r->Err_0 == e,
        },
{
    read_identifiers(cur, false)
}

/// `<build> ::= <dot-separated build identifiers>`
fn read_build(cur: &mut Cursor) -> (r: Result<Vec<Identifier>, ParseError>)
    requires
        old(cur).wf(),
    ensures
        final(cur).wf(),
        final(cur).chars@ == old(cur).chars@,
        match read_idents(old(cur).chars@, old(cur).pos as int, true) {
            Ok((ids, k)) => r is Ok && views(r->Ok_0@) == ids && final(cur).pos == k,
            Err(e) => r is Err && r->Err_0 == e,
        },
{
    read_identifiers(cur, true)
}

/// A version core, then an optional prerelease and optional build metadata, then the end.
fn read_version(cur: &mut Cursor) -> (r: Result<Version, ParseError>)
    requires
        old(cur).wf(),
        old(cur).pos == core_start(old(cur).chars@),
    ensures
        match parse_text(old(cur).chars@) {
            Ok(v) => r is Ok && r->Ok_0@ == v,
            Err(e) => r is Err && r->Err_0 == e,
        },
{
    let ghost s = cur.chars@;
    let (major, minor, patch) = match read_version_core(cur) {
        Ok(core) => core,
        Err(e) => return Err(e),
    };
    let mut prerelease: Vec<Identifier> = Vec::new();
    let mut build: Vec<Identifier> = Vec::new();
    assert(views(prerelease@) == Seq::<IdentifierView>::empty());
    assert(views(build@) == Seq::<IdentifierView>::empty());
    if cur.peek() == Some('-') {
        cur.advance();
        prerelease = match read_prerelease(cur) {
            Ok(ids) => ids,
            Err(e) => return Err(e),
        };
        if !cur.at_end() && cur.peek() != Some('+') {
            return Err(ParseError::InvalidCharacter);
        }
    } else if !cur.at_end() && cur.peek() != Some('+') {
        return Err(ParseError::ExtraneousInput);
    }
    if cur.peek() == Some('+') {
        cur.advance();
        build = match read_build(cur) {
            Ok(ids) => ids,
            Err(e) => return Err(e),
        };
        if !cur.at_end() {
            if cur.peek() == Some('+') {
                return Err(ParseError::MisorderedSection);
            } else {
                return Err(ParseError::InvalidCharacter);
            }
        }
    }
    let version = Version { major, minor, patch, prerelease, build };
    Ok(version)
}

impl Version {
    /// Parses version text: an optional leading `v`, `major.minor.patch`, then an
    /// optional `-` prerelease and an optional `+` build metadata, and nothing after.
    /// Fails with the first violation of the grammar.
    pub fn parse(text: &str) -> (r: Result<Version, ParseError>)
        ensures
            match parse_text(text@) {
                Ok(v) => r is Ok && r->Ok_0@ == v,
                Err(e) => r is Err && r->Err_0 == e,
            },
            r is Ok ==> r->Ok_0.wf(),
    {
        proof {
            if parse_text(text@) is Ok {
                lemma_parse_text_wf(text@);
            }
        }
        let mut cur = Cursor::new(text);
        match cur.peek() {
            Some(c) => {
                if c == 'v' {
                    cur.advance();
                }
            },
            None => {},
        }
        read_version(&mut cur)
    }
}

} // verus!
