//! Tool name patterns: `*` stands for any sequence of characters, `?` for
//! exactly one, and every other character for itself.
use vstd::prelude::*;

use crate::text::chars_of;

verus! {

/// One pattern character matches a piece of the name.
pub open spec fn token_matches(token: char, piece: Seq<char>) -> bool {
    if token == '*' {
        true
    } else if token == '?' {
        piece.len() == 1
    } else {
        piece == seq![token]
    }
}

/// The piece of `name` between the cuts `i` and `i + 1` is in order and matches
/// the pattern's character `i`.
pub open spec fn piece_matches(
    pattern: Seq<char>,
    name: Seq<char>,
    cuts: Seq<int>,
    i: int,
) -> bool {
    &&& 0 <= cuts[i] <= cuts[i + 1] <= name.len()
    &&& token_matches(pattern[i], name.subrange(cuts[i], cuts[i + 1]))
}

/// `cuts` divides the whole of `name` into one piece for each character of
/// `pattern`, in order, and each piece matches its character.
pub open spec fn is_division(pattern: Seq<char>, name: Seq<char>, cuts: Seq<int>) -> bool {
    &&& cuts.len() == pattern.len() + 1
    &&& cuts.first() == 0
    &&& cuts.last() == name.len()
    &&& forall|i: int|
        0 <= i < pattern.len() ==> #[trigger] piece_matches(pattern, name, cuts, i)
}

/// `pattern` matches the whole of `name`.
pub open spec fn pattern_matches(pattern: Seq<char>, name: Seq<char>) -> bool {
    exists|cuts: Seq<int>| is_division(pattern, name, cuts)
}

/// `token` matches what is left of `name` after `pattern` has matched its first
/// `k` characters.
pub open spec fn matches_up_to(
    pattern: Seq<char>,
    token: char,
    name: Seq<char>,
    k: int,
) -> bool {
    &&& 0 <= k <= name.len()
    &&& pattern_matches(pattern, name.take(k))
    &&& token_matches(token, name.skip(k))
}

/// The empty pattern matches the empty name and no other.
pub proof fn law_empty_pattern(name: Seq<char>)
    ensures
        pattern_matches(Seq::empty(), name) <==> name.len() == 0,
{
    let empty = Seq::<char>::empty();
    if pattern_matches(empty, name) {
        let cuts = choose|cuts: Seq<int>| is_division(empty, name, cuts);
        assert(cuts.first() == cuts.last());
    }
    if name.len() == 0 {
        assert(is_division(empty, name, seq![0int]));
    }
}

/// Every piece of a division lies within the cut that follows it.
proof fn lemma_cuts_ordered(pattern: Seq<char>, name: Seq<char>, cuts: Seq<int>, i: int, j: int)
    requires
        is_division(pattern, name, cuts),
        0 <= i <= j <= pattern.len(),
    ensures
        0 <= cuts[i] <= cuts[j] <= name.len(),
    decreases j - i,
{
    if i < j {
        lemma_cuts_ordered(pattern, name, cuts, i, j - 1);
        assert(piece_matches(pattern, name, cuts, j - 1));
    } else if i < pattern.len() {
        assert(piece_matches(pattern, name, cuts, i));
    } else if i > 0 {
        assert(piece_matches(pattern, name, cuts, i - 1));
    }
}

/// The first `i` pieces of a division match the first `i` characters of the
/// pattern, and the other pieces the other characters.
proof fn lemma_division_splits(
    pattern: Seq<char>,
    name: Seq<char>,
    cuts: Seq<int>,
    i: int,
)
    requires
        is_division(pattern, name, cuts),
        0 <= i <= pattern.len(),
    ensures
        0 <= cuts[i] <= name.len(),
        pattern_matches(pattern.take(i), name.take(cuts[i])),
        pattern_matches(pattern.skip(i), name.skip(cuts[i])),
{
    let k = cuts[i];
    lemma_cuts_ordered(pattern, name, cuts, i, i);
    let left = cuts.take(i + 1);
    assert forall|j: int| 0 <= j < i implies #[trigger] piece_matches(
        pattern.take(i),
        name.take(k),
        left,
        j,
    ) by {
        assert(piece_matches(pattern, name, cuts, j));
        lemma_cuts_ordered(pattern, name, cuts, j + 1, i);
        assert(name.take(k).subrange(cuts[j], cuts[j + 1]) =~= name.subrange(
            cuts[j],
            cuts[j + 1],
        ));
    }
    assert(is_division(pattern.take(i), name.take(k), left));
    let right = Seq::new((pattern.len() - i + 1) as nat, |j: int| cuts[i + j] - k);
    assert forall|j: int| 0 <= j < pattern.len() - i implies #[trigger] piece_matches(
        pattern.skip(i),
        name.skip(k),
        right,
        j,
    ) by {
        assert(piece_matches(pattern, name, cuts, i + j));
        lemma_cuts_ordered(pattern, name, cuts, i, i + j);
        assert(name.skip(k).subrange(right[j], right[j + 1]) =~= name.subrange(
            cuts[i + j],
            cuts[i + j + 1],
        ));
    }
    assert(is_division(pattern.skip(i), name.skip(k), right));
}

/// Two matches in a row make a match of the whole.
proof fn lemma_divisions_join(
    first: Seq<char>,
    second: Seq<char>,
    head: Seq<char>,
    tail: Seq<char>,
)
    requires
        pattern_matches(first, head),
        pattern_matches(second, tail),
    ensures
        pattern_matches(first + second, head + tail),
{
    let a = choose|cuts: Seq<int>| is_division(first, head, cuts);
    let b = choose|cuts: Seq<int>| is_division(second, tail, cuts);
    let pattern = first + second;
    let name = head + tail;
    let n = first.len() as int;
    let cuts = Seq::new(
        (pattern.len() + 1) as nat,
        |i: int| if i <= n { a[i] } else { b[i - n] + head.len() },
    );
    assert(cuts[n] == head.len());
    assert forall|i: int| 0 <= i < pattern.len() implies #[trigger] piece_matches(
        pattern,
        name,
        cuts,
        i,
    ) by {
        if i < n {
            assert(piece_matches(first, head, a, i));
            assert(name.subrange(cuts[i], cuts[i + 1]) =~= head.subrange(a[i], a[i + 1]));
        } else {
            assert(piece_matches(second, tail, b, i - n));
            assert(name.subrange(cuts[i], cuts[i + 1]) =~= tail.subrange(b[i - n], b[i - n + 1]));
        }
    }
    assert(is_division(pattern, name, cuts));
}

/// A pattern in two parts matches a name exactly if the name can be cut in two
/// so that each part matches its side of the cut.
pub proof fn law_concatenation(first: Seq<char>, second: Seq<char>, name: Seq<char>)
    ensures
        pattern_matches(first + second, name) <==> exists|k: int|
            0 <= k <= name.len() && #[trigger] pattern_matches(first, name.take(k))
                && pattern_matches(second, name.skip(k)),
{
    let pattern = first + second;
    if pattern_matches(pattern, name) {
        let cuts = choose|cuts: Seq<int>| is_division(pattern, name, cuts);
        let n = first.len() as int;
        lemma_division_splits(pattern, name, cuts, n);
        assert(pattern.take(n) =~= first);
        assert(pattern.skip(n) =~= second);
        assert(pattern_matches(first, name.take(cuts[n])));
    }
    if exists|k: int|
        0 <= k <= name.len() && #[trigger] pattern_matches(first, name.take(k))
            && pattern_matches(second, name.skip(k)) {
        let k = choose|k: int|
            0 <= k <= name.len() && #[trigger] pattern_matches(first, name.take(k))
                && pattern_matches(second, name.skip(k));
        lemma_divisions_join(first, second, name.take(k), name.skip(k));
        assert(name.take(k) + name.skip(k) =~= name);
    }
}

/// A pattern of one character matches what the character matches.
pub proof fn law_single_token(token: char, name: Seq<char>)
    ensures
        pattern_matches(seq![token], name) <==> token_matches(token, name),
{
    let pattern = seq![token];
    let whole = name.subrange(0, name.len() as int);
    assert(whole =~= name);
    if pattern_matches(pattern, name) {
        let cuts = choose|cuts: Seq<int>| is_division(pattern, name, cuts);
        assert(piece_matches(pattern, name, cuts, 0));
    }
    if token_matches(token, name) {
        let cuts = seq![0int, name.len() as int];
        assert(piece_matches(pattern, name, cuts, 0));
        assert(is_division(pattern, name, cuts));
    }
}

/// `*` matches any name, `?` any name of one character, and every other character
/// the name that is that character.
pub proof fn law_what_a_character_matches(c: char, name: Seq<char>)
    ensures
        c == '*' ==> pattern_matches(seq![c], name),
        c == '?' ==> (pattern_matches(seq![c], name) <==> name.len() == 1),
        c != '*' && c != '?' ==> (pattern_matches(seq![c], name) <==> name.len() == 1 && name[0]
            == c),
{
    law_single_token(c, name);
    if name.len() == 1 && name[0] == c {
        assert(name =~= seq![c]);
    }
}

/// The last character of a pattern decides how the match before it extends.
proof fn lemma_last_token(pattern: Seq<char>, token: char, name: Seq<char>)
    ensures
        pattern_matches(pattern.push(token), name) <==> exists|k: int| #[trigger]
            matches_up_to(pattern, token, name, k),
{
    assert(pattern.push(token) =~= pattern + seq![token]);
    law_concatenation(pattern, seq![token], name);
    if pattern_matches(pattern.push(token), name) {
        let k = choose|k: int|
            0 <= k <= name.len() && #[trigger] pattern_matches(pattern, name.take(k))
                && pattern_matches(seq![token], name.skip(k));
        law_single_token(token, name.skip(k));
        assert(matches_up_to(pattern, token, name, k));
    }
    if exists|k: int| #[trigger] matches_up_to(pattern, token, name, k) {
        let k = choose|k: int| #[trigger] matches_up_to(pattern, token, name, k);
        law_single_token(token, name.skip(k));
        assert(pattern_matches(pattern, name.take(k)));
    }
}

/// What a match of the first `j` characters of a name rests on, where the
/// pattern ends with `token`.
proof fn lemma_table_cell(pattern: Seq<char>, token: char, name: Seq<char>, j: int)
    requires
        0 <= j <= name.len(),
    ensures
        pattern_matches(pattern.push(token), name.take(j)) == if token == '*' {
            ||| pattern_matches(pattern, name.take(j))
            ||| j > 0 && pattern_matches(pattern.push(token), name.take(j - 1))
        } else {
            &&& j > 0
            &&& token == '?' || name[j - 1] == token
            &&& pattern_matches(pattern, name.take(j - 1))
        },
{
    let whole = name.take(j);
    lemma_last_token(pattern, token, whole);
    if token == '*' {
        if pattern_matches(pattern, whole) {
            assert(whole.take(j) =~= whole);
            assert(matches_up_to(pattern, token, whole, j));
        }
        if j > 0 {
            let shorter = name.take(j - 1);
            lemma_last_token(pattern, token, shorter);
            if pattern_matches(pattern.push(token), shorter) {
                let k = choose|k: int| #[trigger] matches_up_to(pattern, token, shorter, k);
                assert(whole.take(k) =~= shorter.take(k));
                assert(matches_up_to(pattern, token, whole, k));
            }
        }
        if pattern_matches(pattern.push(token), whole) {
            let k = choose|k: int| #[trigger] matches_up_to(pattern, token, whole, k);
            if k == j {
                assert(whole.take(k) =~= whole);
            } else {
                let shorter = name.take(j - 1);
                assert(whole.take(k) =~= shorter.take(k));
                assert(matches_up_to(pattern, token, shorter, k));
            }
        }
    } else {
        if j > 0 {
            assert(whole.take(j - 1) =~= name.take(j - 1));
            assert(whole.skip(j - 1) =~= seq![name[j - 1]]);
            if (token == '?' || name[j - 1] == token) && pattern_matches(
                pattern,
                name.take(j - 1),
            ) {
                assert(matches_up_to(pattern, token, whole, j - 1));
            }
        }
        if pattern_matches(pattern.push(token), whole) {
            let k = choose|k: int| #[trigger] matches_up_to(pattern, token, whole, k);
            assert(whole.skip(k).len() == 1);
            assert(k == j - 1);
            assert(whole.skip(k)[0] == name[j - 1]);
        }
    }
}

/// `pattern` holds neither `*` nor `?`.
pub open spec fn is_literal(pattern: Seq<char>) -> bool {
    forall|i: int| 0 <= i < pattern.len() ==> #[trigger] pattern[i] != '*' && pattern[i] != '?'
}

/// `*` matches any name, the empty one too.
pub proof fn law_star_matches_anything(name: Seq<char>)
    ensures
        pattern_matches(seq!['*'], name),
{
    law_single_token('*', name);
}

/// A pattern without wildcards matches its own text, and nothing else.
pub proof fn law_literal_matches_itself(pattern: Seq<char>, name: Seq<char>)
    requires
        is_literal(pattern),
    ensures
        pattern_matches(pattern, name) <==> name == pattern,
    decreases pattern.len(),
{
    if pattern.len() == 0 {
        law_empty_pattern(name);
        assert(pattern =~= Seq::empty());
        if name.len() == 0 {
            assert(name =~= pattern);
        }
    } else {
        let init = pattern.drop_last();
        let n = name.len() as int;
        assert(init.push(pattern.last()) =~= pattern);
        assert(name.take(n) =~= name);
        lemma_table_cell(init, pattern.last(), name, n);
        if n > 0 {
            law_literal_matches_itself(init, name.take(n - 1));
            assert(name.take(n - 1).push(name[n - 1]) =~= name);
            if name == pattern {
                assert(name.take(n - 1) =~= init);
            }
        }
    }
}

/// A text followed by `*` matches the names that start with the text.
pub proof fn law_star_suffix_matches_prefix(text: Seq<char>, name: Seq<char>)
    requires
        is_literal(text),
    ensures
        pattern_matches(text.push('*'), name) <==> text.is_prefix_of(name),
{
    let star = seq!['*'];
    assert(text.push('*') =~= text + star);
    law_concatenation(text, star, name);
    if pattern_matches(text + star, name) {
        let k = choose|k: int|
            0 <= k <= name.len() && #[trigger] pattern_matches(text, name.take(k))
                && pattern_matches(star, name.skip(k));
        law_literal_matches_itself(text, name.take(k));
    }
    if text.is_prefix_of(name) {
        let k = text.len() as int;
        assert(name.take(k) =~= text);
        law_literal_matches_itself(text, name.take(k));
        law_star_matches_anything(name.skip(k));
    }
}

/// `*` followed by a text matches the names that end with the text.
pub proof fn law_star_prefix_matches_suffix(text: Seq<char>, name: Seq<char>)
    requires
        is_literal(text),
    ensures
        pattern_matches(seq!['*'] + text, name) <==> text.is_suffix_of(name),
{
    let star = seq!['*'];
    law_concatenation(star, text, name);
    if pattern_matches(star + text, name) {
        let k = choose|k: int|
            0 <= k <= name.len() && #[trigger] pattern_matches(star, name.take(k))
                && pattern_matches(text, name.skip(k));
        law_literal_matches_itself(text, name.skip(k));
    }
    if text.is_suffix_of(name) {
        let k = name.len() - text.len();
        assert(name.skip(k) =~= text);
        law_literal_matches_itself(text, name.skip(k));
        law_star_matches_anything(name.take(k));
        assert(pattern_matches(star, name.take(k)));
    }
}

/// A pattern of `?` alone matches the names of as many characters.
pub proof fn law_question_marks_count(pattern: Seq<char>, name: Seq<char>)
    requires
        forall|i: int| 0 <= i < pattern.len() ==> #[trigger] pattern[i] == '?',
    ensures
        pattern_matches(pattern, name) <==> name.len() == pattern.len(),
    decreases pattern.len(),
{
    if pattern.len() == 0 {
        law_empty_pattern(name);
        assert(pattern =~= Seq::empty());
    } else {
        let n = name.len() as int;
        assert(pattern.drop_last().push('?') =~= pattern);
        assert(name.take(n) =~= name);
        lemma_table_cell(pattern.drop_last(), '?', name, n);
        if n > 0 {
            law_question_marks_count(pattern.drop_last(), name.take(n - 1));
        }
    }
}

/// Two stars in a row, anywhere in a pattern, act like one star.
pub proof fn law_repeated_stars(before: Seq<char>, after: Seq<char>, name: Seq<char>)
    ensures
        pattern_matches(before + seq!['*', '*'] + after, name) <==> pattern_matches(
            before + seq!['*'] + after,
            name,
        ),
{
    let one = seq!['*'];
    let two = seq!['*', '*'];
    law_concatenation(before + two, after, name);
    law_concatenation(before + one, after, name);
    assert forall|k: int| 0 <= k <= name.len() implies pattern_matches(before + two, name.take(k))
        == pattern_matches(before + one, #[trigger] name.take(k)) by {
        let head = name.take(k);
        assert(before + one =~= before.push('*'));
        assert(before + two =~= before.push('*').push('*'));
        lemma_last_token(before.push('*'), '*', head);
        lemma_last_token(before, '*', head);
        if pattern_matches(before.push('*'), head) {
            assert(head.take(head.len() as int) =~= head);
            assert(matches_up_to(before.push('*'), '*', head, head.len() as int));
        }
        if pattern_matches(before.push('*').push('*'), head) {
            let m = choose|m: int| #[trigger] matches_up_to(before.push('*'), '*', head, m);
            lemma_last_token(before, '*', head.take(m));
            let l = choose|l: int| #[trigger] matches_up_to(before, '*', head.take(m), l);
            assert(head.take(m).take(l) =~= head.take(l));
            assert(matches_up_to(before, '*', head, l));
        }
    }
    if pattern_matches(before + two + after, name) {
        let k = choose|k: int|
            0 <= k <= name.len() && #[trigger] pattern_matches(before + two, name.take(k))
                && pattern_matches(after, name.skip(k));
        assert(pattern_matches(before + one, name.take(k)));
    }
    if pattern_matches(before + one + after, name) {
        let k = choose|k: int|
            0 <= k <= name.len() && #[trigger] pattern_matches(before + one, name.take(k))
                && pattern_matches(after, name.skip(k));
        assert(pattern_matches(before + two, name.take(k)));
    }
}

/// Match `name` against `pattern` using `*` (any sequence) and `?` (one
/// character).
pub fn glob_match(pattern: &str, name: &str) -> (r: bool)
    ensures
        r == pattern_matches(pattern@, name@),
{
    let p = chars_of(pattern);
    let n = chars_of(name);
    match_chars(&p, &n)
}

/// Match the characters `n` against the pattern `p`.
///
/// `row[j]` tells whether the part of the pattern that was read so far matches
/// the first `j` characters of the name.
fn match_chars(p: &Vec<char>, n: &Vec<char>) -> (r: bool)
    ensures
        r == pattern_matches(p@, n@),
{
    let mut row: Vec<bool> = Vec::new();
    row.push(true);
    proof {
        law_empty_pattern(n@.take(0));
        assert(p@.take(0) =~= Seq::empty());
    }
    for j in 0..n.len()
        invariant
            row.len() == j + 1,
            p@.take(0) == Seq::<char>::empty(),
            forall|k: int|
                0 <= k <= j ==> #[trigger] row[k] == pattern_matches(p@.take(0), n@.take(k)),
    {
        proof {
            law_empty_pattern(n@.take(j + 1));
        }
        row.push(false);
    }
    for i in 0..p.len()
        invariant
            row.len() == n.len() + 1,
            forall|k: int|
                0 <= k <= n.len() ==> #[trigger] row[k] == pattern_matches(
                    p@.take(i as int),
                    n@.take(k),
                ),
    {
        let token = p[i];
        let mut next: Vec<bool> = Vec::new();
        assert(p@.take(i + 1) =~= p@.take(i as int).push(token));
        for j in 0..n.len() + 1
            invariant
                row.len() == n.len() + 1,
                next.len() == j,
                p@.take(i + 1) == p@.take(i as int).push(token),
                forall|k: int|
                    0 <= k <= n.len() ==> #[trigger] row[k] == pattern_matches(
                        p@.take(i as int),
                        n@.take(k),
                    ),
                forall|k: int|
                    0 <= k < j ==> #[trigger] next[k] == pattern_matches(
                        p@.take(i + 1),
                        n@.take(k),
                    ),
        {
            proof {
                lemma_table_cell(p@.take(i as int), token, n@, j as int);
            }
            let cell = if token == '*' {
                row[j] || (j > 0 && next[j - 1])
            } else {
                j > 0 && (token == '?' || n[j - 1] == token) && row[j - 1]
            };
            next.push(cell);
        }
        row = next;
    }
    assert(p@.take(p@.len() as int) =~= p@);
    assert(n@.take(n@.len() as int) =~= n@);
    row[n.len()]
}

} // verus!
