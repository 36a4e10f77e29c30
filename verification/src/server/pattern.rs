//! File names: search patterns, and names that only macOS asks for.

use crate::text::{
    begins_with, chars_of, lower, lower_all, str_begins_with, str_eq, str_holds_char, to_lower,
};
use vstd::prelude::*;

verus! {

/// Says whether a name fits a search pattern: `*` stands for any characters,
/// `?` for one, and any other character for itself in either case.
pub open spec fn fits(pattern: Seq<char>, name: Seq<char>) -> bool
    decreases pattern.len(),
{
    if pattern.len() == 0 {
        name.len() == 0
    } else if pattern[0] == '*' {
        exists|k: int| 0 <= k <= name.len() && fits(pattern.skip(1), #[trigger] name.skip(k))
    } else {
        &&& name.len() > 0
        &&& pattern[0] == '?' || lower(pattern[0]) == lower(name[0])
        &&& fits(pattern.skip(1), name.skip(1))
    }
}

/// Says whether a pattern has a wildcard.
pub open spec fn has_wildcard(pattern: Seq<char>) -> bool {
    pattern.contains('*') || pattern.contains('?')
}

/// The pattern `*` fits every name.
pub proof fn law_star_fits_all(name: Seq<char>)
    ensures
        fits(seq!['*'], name),
{
    let p = seq!['*'];
    assert(p.skip(1) =~= Seq::empty());
    assert(name.skip(name.len() as int).len() == 0);
    assert(fits(p.skip(1), name.skip(name.len() as int)));
}

/// A pattern without wildcards fits exactly the names that differ from it in
/// the case of letters alone.
pub proof fn law_plain_pattern_ignores_case(pattern: Seq<char>, name: Seq<char>)
    requires
        !has_wildcard(pattern),
    ensures
        fits(pattern, name) == (lower_all(pattern) == lower_all(name)),
    decreases pattern.len(),
{
    if pattern.len() == 0 {
        assert(lower_all(pattern).len() == 0);
        assert(name.len() == 0 ==> lower_all(name) =~= lower_all(pattern));
    } else {
        assert(pattern.contains(pattern[0]));
        let p = pattern.skip(1);
        assert forall|c: char| p.contains(c) implies pattern.contains(c) by {
            let i = choose|i: int| 0 <= i < p.len() && p[i] == c;
            assert(pattern[i + 1] == c);
        }
        if name.len() > 0 {
            let n = name.skip(1);
            law_plain_pattern_ignores_case(p, n);
            if lower_all(pattern) == lower_all(name) {
                assert(lower_all(pattern)[0] == lower_all(name)[0]);
                assert(lower_all(p) =~= lower_all(pattern).skip(1));
                assert(lower_all(n) =~= lower_all(name).skip(1));
            }
            if lower(pattern[0]) == lower(name[0]) && lower_all(p) == lower_all(n) {
                assert(lower_all(pattern).len() == lower_all(name).len()) by {
                    assert(lower_all(p).len() == lower_all(n).len());
                }
                assert forall|i: int| 0 <= i < pattern.len() implies #[trigger] lower_all(
                    pattern,
                )[i] == lower_all(name)[i] by {
                    if i > 0 {
                        assert(lower_all(p)[i - 1] == lower_all(n)[i - 1]);
                    }
                }
                assert(lower_all(pattern) =~= lower_all(name));
            }
        } else {
            assert(lower_all(name).len() != lower_all(pattern).len());
        }
    }
}

/// Whether a pattern fits does not depend on the case of the name's letters.
pub proof fn law_fitting_ignores_case(pattern: Seq<char>, a: Seq<char>, b: Seq<char>)
    requires
        lower_all(a) == lower_all(b),
    ensures
        fits(pattern, a) == fits(pattern, b),
    decreases pattern.len(),
{
    assert(a.len() == lower_all(a).len() && b.len() == lower_all(b).len());
    if pattern.len() > 0 {
        assert forall|k: int| 0 <= k <= a.len() implies fits(
            pattern.skip(1),
            #[trigger] a.skip(k),
        ) == fits(pattern.skip(1), b.skip(k)) by {
            assert(lower_all(a.skip(k)) =~= lower_all(a).skip(k));
            assert(lower_all(b.skip(k)) =~= lower_all(b).skip(k));
            law_fitting_ignores_case(pattern.skip(1), a.skip(k), b.skip(k));
        }
        if a.len() > 0 {
            assert(b.len() > 0);
            assert(lower_all(a)[0] == lower(a[0]));
            assert(lower_all(b)[0] == lower(b[0]));
            assert(lower(a[0]) == lower(b[0]));
            assert(fits(pattern.skip(1), a.skip(1)) == fits(pattern.skip(1), b.skip(1)));
        }
        if pattern[0] == '*' {
            if fits(pattern, a) {
                let k = choose|k: int|
                    0 <= k <= a.len() && fits(pattern.skip(1), #[trigger] a.skip(k));
                assert(fits(pattern.skip(1), b.skip(k)));
                assert(fits(pattern, b));
            }
            if fits(pattern, b) {
                let k = choose|k: int|
                    0 <= k <= b.len() && fits(pattern.skip(1), #[trigger] b.skip(k));
                assert(fits(pattern.skip(1), a.skip(k)));
                assert(fits(pattern, a));
            }
        }
    }
}

/// Says whether the pattern from `pi` on fits the name from `ni` on. Nothing
/// fits behind the end of the name.
fn wildcard_match(p: &[char], n: &[char], pi: usize, ni: usize) -> (r: bool)
    requires
        pi <= p@.len(),
    ensures
        ni <= n@.len() ==> r == fits(p@.skip(pi as int), n@.skip(ni as int)),
        ni > n@.len() ==> !r,
    decreases p@.len() - pi,
{
    if ni > n.len() {
        return false;
    }
    let ghost ps = p@.skip(pi as int);
    let ghost ns = n@.skip(ni as int);
    if pi == p.len() {
        return ni == n.len();
    }
    assert(ps.skip(1) =~= p@.skip(pi + 1));
    if p[pi] == '*' {
        let mut at: usize = ni;
        loop
            invariant
                pi < p@.len(),
                ni <= at <= n@.len(),
                ps == p@.skip(pi as int),
                ns == n@.skip(ni as int),
                ps.skip(1) == p@.skip(pi + 1),
                p@[pi as int] == '*',
                forall|k: int|
                    0 <= k < at - ni ==> !fits(ps.skip(1), #[trigger] ns.skip(k)),
            decreases n@.len() - at,
        {
            assert(p.len() <= usize::MAX);
            let hit = wildcard_match(p, n, pi + 1, at);
            assert(ns.skip(at - ni) =~= n@.skip(at as int));
            if hit {
                assert(fits(ps.skip(1), ns.skip(at - ni)));
                return true;
            }
            if at == n.len() {
                return false;
            }
            at += 1;
        }
    }
    if ni < n.len() && (p[pi] == '?' || to_lower(p[pi]) == to_lower(n[ni])) {
        assert(ns.skip(1) =~= n@.skip(ni + 1));
        wildcard_match(p, n, pi + 1, ni + 1)
    } else {
        false
    }
}

fn same_but_for_case(a: &[char], b: &[char]) -> (r: bool)
    ensures
        r == (lower_all(a@) == lower_all(b@)),
{
    if a.len() != b.len() {
        assert(lower_all(a@).len() != lower_all(b@).len());
        return false;
    }
    let mut i: usize = 0;
    while i < a.len()
        invariant
            i <= a@.len(),
            a@.len() == b@.len(),
            forall|k: int| 0 <= k < i ==> lower(a@[k]) == lower(b@[k]),
        decreases a@.len() - i,
    {
        if to_lower(a[i]) != to_lower(b[i]) {
            assert(lower_all(a@)[i as int] != lower_all(b@)[i as int]);
            return false;
        }
        i += 1;
    }
    assert(lower_all(a@) =~= lower_all(b@));
    true
}

/// Matches an SMB search pattern against a file name: `*` stands for any
/// characters, `?` for one. The case of letters does not matter.
pub fn smb_pattern_match(pattern: &str, name: &str) -> (r: bool)
    ensures
        r == fits(pattern@, name@),
{
    if str_eq(pattern, "*") {
        proof {
            reveal_strlit("*");
            assert("*"@ =~= seq!['*']);
            law_star_fits_all(name@);
        }
        return true;
    }
    let p = chars_of(pattern);
    let n = chars_of(name);
    if !str_holds_char(pattern, '*') && !str_holds_char(pattern, '?') {
        proof {
            law_plain_pattern_ignores_case(pattern@, name@);
        }
        return same_but_for_case(&p, &n);
    }
    assert(p@.skip(0) =~= pattern@);
    assert(n@.skip(0) =~= name@);
    wildcard_match(&p, &n, 0, 0)
}

/// The names that macOS asks for in every directory and that never exist on
/// the remote side.
pub open spec fn apple_metadata(name: Seq<char>) -> bool {
    ||| name == ".DS_Store"@
    ||| name == ".localized"@
    ||| name == ".hidden"@
    ||| begins_with(name, "._"@)
    ||| name == "Icon\r"@
    ||| name == ".Spotlight-V100"@
    ||| name == ".Trashes"@
    ||| name == ".fseventsd"@
    ||| name == ".TemporaryItems"@
    ||| name == ".com.apple.timemachine.donotpresent"@
    ||| name == ".metadata_never_index"@
    ||| name == ".metadata_never_index_unless_rootfs"@
    ||| name == ".metadata_direct_scope_only"@
    ||| name == "mdssvc"@
    ||| name == "MsFteWds"@
}

/// Says whether only macOS asks for a name.
pub fn is_apple_metadata(name: &str) -> (r: bool)
    ensures
        r == apple_metadata(name@),
{
    str_eq(name, ".DS_Store") || str_eq(name, ".localized") || str_eq(name, ".hidden")
        || str_begins_with(name, "._") || str_eq(name, "Icon\r") || str_eq(name, ".Spotlight-V100")
        || str_eq(name, ".Trashes") || str_eq(name, ".fseventsd") || str_eq(
        name,
        ".TemporaryItems",
    ) || str_eq(name, ".com.apple.timemachine.donotpresent") || str_eq(
        name,
        ".metadata_never_index",
    ) || str_eq(name, ".metadata_never_index_unless_rootfs") || str_eq(
        name,
        ".metadata_direct_scope_only",
    ) || str_eq(name, "mdssvc") || str_eq(name, "MsFteWds")
}

/// The file that keeps Spotlight from indexing a volume. The share pretends
/// that its root holds one, and that it is empty.
pub open spec fn spotlight_inhibitor(name: Seq<char>) -> bool {
    name == ".metadata_never_index"@
}

/// Says whether a file keeps Spotlight from indexing a volume.
pub fn is_spotlight_inhibitor(name: &str) -> (r: bool)
    ensures
        r == spotlight_inhibitor(name@),
{
    str_eq(name, ".metadata_never_index")
}

/// A name in front of a `*` fits what starts with it, in either case.
pub proof fn law_star_behind_fits_beginnings(start: Seq<char>, name: Seq<char>)
    requires
        !has_wildcard(start),
    ensures
        fits(start + seq!['*'], name) <==> {
            &&& start.len() <= name.len()
            &&& lower_all(name.take(start.len() as int)) == lower_all(start)
        },
    decreases start.len(),
{
    let p = start + seq!['*'];
    if start.len() == 0 {
        assert(p =~= seq!['*']);
        law_star_fits_all(name);
        assert(lower_all(name.take(0)) =~= lower_all(start));
    } else {
        assert(start.contains(start[0]));
        let rest = start.skip(1);
        assert forall|c: char| rest.contains(c) implies start.contains(c) by {
            let i = choose|i: int| 0 <= i < rest.len() && rest[i] == c;
            assert(start[i + 1] == c);
        }
        assert(p.skip(1) =~= rest + seq!['*']);
        if name.len() > 0 {
            let tail = name.skip(1);
            law_star_behind_fits_beginnings(rest, tail);
            if start.len() <= name.len() {
                let a = lower_all(name.take(start.len() as int));
                let b = lower_all(start);
                let c = lower_all(tail.take(rest.len() as int));
                let d = lower_all(rest);
                assert(a.skip(1) =~= c);
                assert(b.skip(1) =~= d);
                assert(a[0] == lower(name[0]) && b[0] == lower(start[0]));
                if c == d && a[0] == b[0] {
                    assert forall|i: int| 0 <= i < a.len() implies a[i] == b[i] by {
                        if i > 0 {
                            assert(a[i] == c[i - 1] && b[i] == d[i - 1]);
                        }
                    }
                    assert(a =~= b);
                }
            }
        }
    }
}

/// A name behind a `*` fits what ends with it, in either case.
pub proof fn law_star_in_front_fits_ends(end: Seq<char>, name: Seq<char>)
    requires
        !has_wildcard(end),
    ensures
        fits(seq!['*'] + end, name) <==> {
            &&& end.len() <= name.len()
            &&& lower_all(name.skip(name.len() - end.len())) == lower_all(end)
        },
{
    let p = seq!['*'] + end;
    assert(p.skip(1) =~= end);
    if fits(p, name) {
        let k = choose|k: int| 0 <= k <= name.len() && fits(p.skip(1), #[trigger] name.skip(k));
        law_plain_pattern_ignores_case(end, name.skip(k));
        assert(lower_all(name.skip(k)).len() == lower_all(end).len());
    }
    if end.len() <= name.len() {
        let k = name.len() - end.len();
        law_plain_pattern_ignores_case(end, name.skip(k));
        assert(fits(p.skip(1), name.skip(k)) ==> fits(p, name));
    }
}

/// As many question marks as a name has characters fit it, and no other number.
pub proof fn law_question_marks_count(n: nat, name: Seq<char>)
    ensures
        fits(Seq::new(n, |i: int| '?'), name) <==> name.len() == n,
    decreases n,
{
    let p = Seq::new(n, |i: int| '?');
    if n > 0 {
        assert(p.skip(1) =~= Seq::new((n - 1) as nat, |i: int| '?'));
        if name.len() > 0 {
            law_question_marks_count((n - 1) as nat, name.skip(1));
        }
    }
}

} // verus!
