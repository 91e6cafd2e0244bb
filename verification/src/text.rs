//! Small operations on text: trimming white space, splitting at a character, joining paths.

use vstd::prelude::*;

verus! {

/// The characters with Unicode's `White_Space` property.
pub open spec fn is_white_space(c: char) -> bool {
    ||| '\u{9}' <= c <= '\u{d}'
    ||| c == '\u{20}'
    ||| c == '\u{85}'
    ||| c == '\u{a0}'
    ||| c == '\u{1680}'
    ||| '\u{2000}' <= c <= '\u{200a}'
    ||| c == '\u{2028}'
    ||| c == '\u{2029}'
    ||| c == '\u{202f}'
    ||| c == '\u{205f}'
    ||| c == '\u{3000}'
}

/// Whether a character has Unicode's `White_Space` property.
pub fn white_space(c: char) -> (b: bool)
    ensures
        b == is_white_space(c),
{
    ('\u{9}' <= c && c <= '\u{d}') || c == '\u{20}' || c == '\u{85}' || c == '\u{a0}' || c
        == '\u{1680}' || ('\u{2000}' <= c && c <= '\u{200a}') || c == '\u{2028}' || c == '\u{2029}'
        || c == '\u{202f}' || c == '\u{205f}' || c == '\u{3000}'
}

/// The text without the white space at its start.
pub open spec fn trimmed_start(s: Seq<char>) -> Seq<char>
    decreases s.len(),
{
    if s.len() > 0 && is_white_space(s.first()) {
        trimmed_start(s.drop_first())
    } else {
        s
    }
}

/// The text without the white space at its end.
pub open spec fn trimmed_end(s: Seq<char>) -> Seq<char>
    decreases s.len(),
{
    if s.len() > 0 && is_white_space(s.last()) {
        trimmed_end(s.drop_last())
    } else {
        s
    }
}

/// The text without the white space around it.
pub open spec fn trimmed(s: Seq<char>) -> Seq<char> {
    trimmed_end(trimmed_start(s))
}

/// The text without the copies of `c` at its start.
pub open spec fn without_leading(s: Seq<char>, c: char) -> Seq<char>
    decreases s.len(),
{
    if s.len() > 0 && s.first() == c {
        without_leading(s.drop_first(), c)
    } else {
        s
    }
}

/// Takes the white space off both ends.
pub fn trim(s: &str) -> (t: &str)
    ensures
        t@ == trimmed(s@),
{
    let n: usize = s.unicode_len();
    let mut from: usize = 0;
    assert(s@.subrange(0, n as int) == s@);
    while from < n && white_space(s.get_char(from))
        invariant
            n == s@.len(),
            from <= n,
            trimmed_start(s@) == trimmed_start(s@.subrange(from as int, n as int)),
        decreases n - from,
    {
        assert(s@.subrange(from as int, n as int).drop_first() == s@.subrange(
            from as int + 1,
            n as int,
        ));
        from = from + 1;
    }
    let ghost rest = s@.subrange(from as int, n as int);
    assert(trimmed_start(s@) == rest);
    let mut to: usize = n;
    while to > from && white_space(s.get_char(to - 1))
        invariant
            n == s@.len(),
            from <= to <= n,
            trimmed_end(rest) == trimmed_end(s@.subrange(from as int, to as int)),
        decreases to,
    {
        assert(s@.subrange(from as int, to as int).drop_last() == s@.subrange(
            from as int,
            to as int - 1,
        ));
        to = to - 1;
    }
    s.substring_char(from, to)
}

/// Takes every copy of `c` off the start.
pub fn trim_start_matches(s: &str, c: char) -> (t: &str)
    ensures
        t@ == without_leading(s@, c),
{
    let n: usize = s.unicode_len();
    let mut from: usize = 0;
    assert(s@.subrange(0, n as int) == s@);
    while from < n && s.get_char(from) == c
        invariant
            n == s@.len(),
            from <= n,
            without_leading(s@, c) == without_leading(s@.subrange(from as int, n as int), c),
        decreases n - from,
    {
        assert(s@.subrange(from as int, n as int).drop_first() == s@.subrange(
            from as int + 1,
            n as int,
        ));
        from = from + 1;
    }
    s.substring_char(from, n)
}

/// How many characters stand before the first `c`; all of them if there is none.
pub open spec fn before_first(s: Seq<char>, c: char) -> nat
    decreases s.len(),
{
    if s.len() == 0 || s.first() == c {
        0
    } else {
        1 + before_first(s.drop_first(), c)
    }
}

/// The texts before and after the first `c`; `None` without a `c`.
pub open spec fn parted(s: Seq<char>, c: char) -> Option<(Seq<char>, Seq<char>)> {
    let at = before_first(s, c) as int;
    if at < s.len() {
        Some((s.take(at), s.skip(at + 1)))
    } else {
        None
    }
}

proof fn before_first_is(s: Seq<char>, c: char, at: int)
    requires
        0 <= at <= s.len(),
        forall|i: int| 0 <= i < at ==> s[i] != c,
        at < s.len() ==> s[at] == c,
    ensures
        before_first(s, c) == at,
    decreases s.len(),
{
    if at > 0 {
        let rest = s.drop_first();
        assert forall|i: int| 0 <= i < at - 1 implies rest[i] != c by {
            assert(rest[i] == s[i + 1]);
        }
        before_first_is(rest, c, at - 1);
    }
}

/// Splits the text at the first `c`, which belongs to neither part.
pub fn split_once(s: &str, c: char) -> (parts: Option<(&str, &str)>)
    ensures
        parts is Some <==> parted(s@, c) is Some,
        parts matches Some((a, b)) ==> (a@, b@) == parted(s@, c)->0,
{
    let n: usize = s.unicode_len();
    let mut at: usize = 0;
    while at < n
        invariant
            n == s@.len(),
            at <= n,
            forall|i: int| 0 <= i < at ==> s@[i] != c,
        decreases n - at,
    {
        if s.get_char(at) == c {
            proof {
                before_first_is(s@, c, at as int);
            }
            let a = s.substring_char(0, at);
            let b = s.substring_char(at + 1, n);
            assert(a@ == s@.take(at as int));
            assert(b@ == s@.skip(at as int + 1));
            return Some((a, b));
        }
        at = at + 1;
    }
    proof {
        before_first_is(s@, c, n as int);
    }
    None
}

/// Parting a text at a character loses nothing but that character, and parts it at the first one.
pub proof fn parting_is_undone_by_joining(before: Seq<char>, c: char, after: Seq<char>)
    requires
        !before.contains(c),
    ensures
        parted(before + seq![c] + after, c) == Some((before, after)),
{
    let s = before + seq![c] + after;
    assert forall|i: int| 0 <= i < before.len() implies s[i] != c by {
        assert(before.contains(before[i]));
    }
    before_first_is(s, c, before.len() as int);
    assert(s.take(before.len() as int) == before);
    assert(s.skip(before.len() as int + 1) == after);
}

/// A path joined to a base path: an absolute path replaces the base, any other follows it after
/// a slash. No slash is added to a base that is empty or ends in one.
pub open spec fn joined_path(base: Seq<char>, part: Seq<char>) -> Seq<char> {
    if part.len() > 0 && part.first() == '/' {
        part
    } else if base.len() == 0 || base.last() == '/' {
        base + part
    } else {
        base + seq!['/'] + part
    }
}

/// Joins a path to a base path.
pub fn join_path(base: &str, part: &str) -> (path: String)
    ensures
        path@ == joined_path(base@, part@),
{
    if part.unicode_len() > 0 && part.get_char(0) == '/' {
        return part.to_owned();
    }
    let n: usize = base.unicode_len();
    let mut path = base.to_owned();
    if n > 0 && base.get_char(n - 1) != '/' {
        path.append("/");
        proof {
            reveal_strlit("/");
            assert("/"@ == seq!['/']);
        }
    }
    path.append(part);
    path
}

/// White space around a text does not survive trimming, whatever the text.
pub proof fn trimming_ignores_white_space_around(before: Seq<char>, s: Seq<char>, after: Seq<char>)
    requires
        forall|i: int| 0 <= i < before.len() ==> is_white_space(#[trigger] before[i]),
        forall|i: int| 0 <= i < after.len() ==> is_white_space(#[trigger] after[i]),
    ensures
        trimmed(before + s + after) == trimmed(s),
{
    trimmed_start_drops_prefix(before, s + after);
    assert(before + s + after == before + (s + after));
    trimmed_start_keeps_suffix(s, after);
    if trimmed_start(s).len() > 0 {
        trimmed_end_drops_suffix(trimmed_start(s), after);
    } else {
        trimmed_start_drops_prefix(after, Seq::empty());
        assert(after + Seq::<char>::empty() == after);
    }
}

proof fn trimmed_start_drops_prefix(before: Seq<char>, s: Seq<char>)
    requires
        forall|i: int| 0 <= i < before.len() ==> is_white_space(#[trigger] before[i]),
    ensures
        trimmed_start(before + s) == trimmed_start(s),
    decreases before.len(),
{
    if before.len() > 0 {
        assert((before + s).first() == before[0]);
        assert((before + s).drop_first() == before.drop_first() + s);
        trimmed_start_drops_prefix(before.drop_first(), s);
    } else {
        assert(before + s == s);
    }
}

proof fn trimmed_start_keeps_suffix(s: Seq<char>, after: Seq<char>)
    ensures
        trimmed_start(s).len() > 0 ==> trimmed_start(s + after) == trimmed_start(s) + after,
        trimmed_start(s).len() == 0 ==> trimmed_start(s + after) == trimmed_start(after),
    decreases s.len(),
{
    if s.len() > 0 {
        assert((s + after).first() == s.first());
        if is_white_space(s.first()) {
            assert((s + after).drop_first() == s.drop_first() + after);
            trimmed_start_keeps_suffix(s.drop_first(), after);
        }
    } else {
        assert(s + after == after);
    }
}

proof fn trimmed_end_drops_suffix(s: Seq<char>, after: Seq<char>)
    requires
        forall|i: int| 0 <= i < after.len() ==> is_white_space(#[trigger] after[i]),
    ensures
        trimmed_end(s + after) == trimmed_end(s),
    decreases after.len(),
{
    if after.len() > 0 {
        assert((s + after).last() == after.last());
        assert((s + after).drop_last() == s + after.drop_last());
        trimmed_end_drops_suffix(s, after.drop_last());
    } else {
        assert(s + after == s);
    }
}

/// A text that neither starts nor ends with white space is left as it is by trimming.
pub proof fn a_bare_text_is_not_trimmed(s: Seq<char>)
    requires
        s.len() > 0 ==> !is_white_space(s.first()) && !is_white_space(s.last()),
    ensures
        trimmed(s) == s,
{
}

/// All copies of a character in front of a text that starts with another one are taken off, and
/// nothing else.
pub proof fn leading_copies_are_dropped(copies: Seq<char>, c: char, s: Seq<char>)
    requires
        forall|i: int| 0 <= i < copies.len() ==> #[trigger] copies[i] == c,
        s.len() > 0 ==> s[0] != c,
    ensures
        without_leading(copies + s, c) == s,
    decreases copies.len(),
{
    if copies.len() == 0 {
        assert(copies + s == s);
    } else {
        assert((copies + s).first() == copies[0]);
        assert((copies + s).drop_first() == copies.drop_first() + s);
        leading_copies_are_dropped(copies.drop_first(), c, s);
    }
}

/// A text without the character has no parts.
pub proof fn a_text_without_the_character_is_not_parted(s: Seq<char>, c: char)
    requires
        !s.contains(c),
    ensures
        parted(s, c) is None,
{
    assert forall|i: int| 0 <= i < s.len() implies s[i] != c by {
        assert(s.contains(s[i]));
    }
    before_first_is(s, c, s.len() as int);
}

/// An absolute path takes the place of the base; any other path follows the base, with a slash
/// between them that is the base's own if it ends in one.
pub proof fn a_joined_path_is_below_its_base(base: Seq<char>, part: Seq<char>)
    ensures
        part.len() > 0 && part[0] == '/' ==> joined_path(base, part) == part,
        !(part.len() > 0 && part[0] == '/') ==> {
            &&& joined_path(Seq::empty(), part) == part
            &&& joined_path(base + seq!['/'], part) == base + seq!['/'] + part
            &&& base.len() > 0 && base[base.len() - 1] != '/' ==> joined_path(base, part) == base
                + seq!['/'] + part
        },
{
    assert((base + seq!['/']).last() == '/');
    assert(Seq::<char>::empty() + part == part);
}

/// What trimming takes off the start is white space.
pub proof fn the_start_is_white_space(s: Seq<char>) -> (taken: Seq<char>)
    ensures
        s == taken + trimmed_start(s),
        forall|i: int| 0 <= i < taken.len() ==> is_white_space(#[trigger] taken[i]),
    decreases s.len(),
{
    if s.len() > 0 && is_white_space(s.first()) {
        let rest = the_start_is_white_space(s.drop_first());
        let taken = seq![s.first()] + rest;
        assert(s == seq![s.first()] + s.drop_first());
        assert(taken + trimmed_start(s) == seq![s.first()] + (rest + trimmed_start(s)));
        taken
    } else {
        assert(s == Seq::<char>::empty() + s);
        Seq::empty()
    }
}

/// What trimming takes off the end is white space.
pub proof fn the_end_is_white_space(s: Seq<char>) -> (taken: Seq<char>)
    ensures
        s == trimmed_end(s) + taken,
        forall|i: int| 0 <= i < taken.len() ==> is_white_space(#[trigger] taken[i]),
    decreases s.len(),
{
    if s.len() > 0 && is_white_space(s.last()) {
        let rest = the_end_is_white_space(s.drop_last());
        let taken = rest.push(s.last());
        assert(s == s.drop_last().push(s.last()));
        assert(trimmed_end(s) + taken == (trimmed_end(s) + rest).push(s.last()));
        taken
    } else {
        assert(s == s + Seq::<char>::empty());
        Seq::empty()
    }
}

/// No white space is left where it was trimmed.
pub proof fn trimmed_ends_are_bare(s: Seq<char>)
    ensures
        trimmed_start(s).len() > 0 ==> !is_white_space(trimmed_start(s).first()),
        trimmed_end(s).len() > 0 ==> !is_white_space(trimmed_end(s).last()),
    decreases s.len(),
{
    if s.len() > 0 {
        if is_white_space(s.first()) {
            trimmed_ends_are_bare(s.drop_first());
        }
        if is_white_space(s.last()) {
            trimmed_ends_are_bare(s.drop_last());
        }
    }
}

} // verus!
