//! Character-sequence helpers: trimming, ASCII lowercasing, space removal,
//! prefix tests, and concatenation, each proved against a direct
//! mathematical statement over `Seq<char>`.

use vstd::prelude::*;

verus! {

/// The whitespace characters that trimming recognizes.
pub open spec fn is_space(c: char) -> bool {
    c == ' ' || c == '\t' || c == '\n' || c == '\r' || c == '\u{c}'
}

/// ASCII lowercasing of a single character; everything else is unchanged.
pub open spec fn lower_char(c: char) -> char {
    match c {
        'A' => 'a',
        'B' => 'b',
        'C' => 'c',
        'D' => 'd',
        'E' => 'e',
        'F' => 'f',
        'G' => 'g',
        'H' => 'h',
        'I' => 'i',
        'J' => 'j',
        'K' => 'k',
        'L' => 'l',
        'M' => 'm',
        'N' => 'n',
        'O' => 'o',
        'P' => 'p',
        'Q' => 'q',
        'R' => 'r',
        'S' => 's',
        'T' => 't',
        'U' => 'u',
        'V' => 'v',
        'W' => 'w',
        'X' => 'x',
        'Y' => 'y',
        'Z' => 'z',
        _ => c,
    }
}

/// ASCII lowercasing of a whole sequence.
pub open spec fn lower(s: Seq<char>) -> Seq<char> {
    s.map_values(|c: char| lower_char(c))
}

/// Number of leading whitespace characters.
pub open spec fn start_of(s: Seq<char>) -> int
    decreases s.len(),
{
    if s.len() > 0 && is_space(s[0]) {
        1 + start_of(s.drop_first())
    } else {
        0
    }
}

/// Index just past the last non-whitespace character.
pub open spec fn end_of(s: Seq<char>) -> int
    decreases s.len(),
{
    if s.len() > 0 && is_space(s.last()) {
        end_of(s.drop_last())
    } else {
        s.len() as int
    }
}

/// The sequence with leading and trailing whitespace removed.
pub open spec fn trim_spec(s: Seq<char>) -> Seq<char> {
    if start_of(s) <= end_of(s) {
        s.subrange(start_of(s), end_of(s))
    } else {
        Seq::empty()
    }
}

/// `start_of` is the unique split point: everything before it is whitespace
/// and the character at it (if any) is not.
pub proof fn lemma_start_of(s: Seq<char>)
    ensures
        0 <= start_of(s) <= s.len(),
        forall|k: int| 0 <= k < start_of(s) ==> is_space(s[k]),
        start_of(s) < s.len() ==> !is_space(s[start_of(s)]),
    decreases s.len(),
{
    if s.len() > 0 && is_space(s[0]) {
        lemma_start_of(s.drop_first());
        assert forall|k: int| 0 <= k < start_of(s) implies is_space(s[k]) by {
            if k > 0 {
                assert(is_space(s.drop_first()[k - 1]));
            }
        }
    }
}

/// `end_of` is the unique split point from the right: everything at or after
/// it is whitespace and the character just before it (if any) is not.
pub proof fn lemma_end_of(s: Seq<char>)
    ensures
        0 <= end_of(s) <= s.len(),
        forall|k: int| end_of(s) <= k < s.len() ==> is_space(s[k]),
        end_of(s) > 0 ==> !is_space(s[end_of(s) - 1]),
    decreases s.len(),
{
    if s.len() > 0 && is_space(s.last()) {
        lemma_end_of(s.drop_last());
        assert forall|k: int| end_of(s) <= k < s.len() implies is_space(s[k]) by {
            if k < s.len() - 1 {
                assert(is_space(s.drop_last()[k]));
            }
        }
    }
}

/// Any index with the `start_of` characterization is `start_of`.
pub proof fn lemma_start_of_unique(s: Seq<char>, j: int)
    requires
        0 <= j <= s.len(),
        forall|k: int| 0 <= k < j ==> is_space(s[k]),
        j < s.len() ==> !is_space(s[j]),
    ensures
        j == start_of(s),
{
    lemma_start_of(s);
    if j < start_of(s) {
        assert(is_space(s[j]));
    } else if j > start_of(s) {
        assert(is_space(s[start_of(s)]));
    }
}

/// Any index with the `end_of` characterization is `end_of`.
pub proof fn lemma_end_of_unique(s: Seq<char>, j: int)
    requires
        0 <= j <= s.len(),
        forall|k: int| j <= k < s.len() ==> is_space(s[k]),
        j > 0 ==> !is_space(s[j - 1]),
    ensures
        j == end_of(s),
{
    lemma_end_of(s);
    if j < end_of(s) {
        assert(is_space(s[end_of(s) - 1]));
    } else if j > end_of(s) {
        assert(is_space(s[j - 1]));
    }
}

/// Lowercasing distributes over concatenation.
pub proof fn lemma_lower_concat(a: Seq<char>, b: Seq<char>)
    ensures
        lower(a + b) == lower(a) + lower(b),
{
    assert forall|i: int| 0 <= i < (a + b).len() implies lower(a + b)[i] == (lower(a) + lower(
        b,
    ))[i] by {
        if i < a.len() {
            assert((a + b)[i] == a[i]);
        } else {
            assert((a + b)[i] == b[i - a.len()]);
        }
    }
    assert(lower(a + b) =~= lower(a) + lower(b));
}

/// Appending after a non-whitespace start: the leading trim point stays at
/// zero, and the trailing trim point lands in `a` when `a` keeps any
/// non-whitespace character, else at `p`'s own trailing trim point.
pub proof fn lemma_ends_of_concat(p: Seq<char>, a: Seq<char>)
    requires
        p.len() > 0,
        !is_space(p[0]),
    ensures
        start_of(p + a) == 0,
        end_of(a) > 0 ==> end_of(p + a) == p.len() + end_of(a),
        end_of(a) == 0 ==> end_of(p + a) == end_of(p),
{
    lemma_end_of(p);
    lemma_end_of(a);
    assert((p + a)[0] == p[0]);
    lemma_start_of_unique(p + a, 0);
    if end_of(a) > 0 {
        let j = p.len() + end_of(a);
        assert forall|k: int| j <= k < (p + a).len() implies is_space((p + a)[k]) by {
            assert((p + a)[k] == a[k - p.len()]);
        }
        assert((p + a)[j - 1] == a[end_of(a) - 1]);
        lemma_end_of_unique(p + a, j);
    } else {
        let j = end_of(p);
        assert(j > 0) by {
            if j == 0 {
                assert(is_space(p[0]));
            }
        }
        assert forall|k: int| j <= k < (p + a).len() implies is_space((p + a)[k]) by {
            if k < p.len() {
                assert((p + a)[k] == p[k]);
            } else {
                assert((p + a)[k] == a[k - p.len()]);
            }
        }
        assert((p + a)[j - 1] == p[j - 1]);
        lemma_end_of_unique(p + a, j);
    }
}

/// What trimming makes of a non-whitespace-headed prefix followed by an
/// arbitrary tail.
pub proof fn lemma_trim_concat(p: Seq<char>, a: Seq<char>)
    requires
        p.len() > 0,
        !is_space(p[0]),
    ensures
        end_of(a) > 0 ==> trim_spec(p + a) == p + a.subrange(0, end_of(a)),
        end_of(a) == 0 ==> trim_spec(p + a) == p.subrange(0, end_of(p)),
{
    lemma_ends_of_concat(p, a);
    lemma_end_of(p);
    lemma_end_of(a);
    if end_of(a) > 0 {
        assert(trim_spec(p + a) =~= p + a.subrange(0, end_of(a)));
    } else {
        assert(end_of(p) > 0) by {
            if end_of(p) == 0 {
                assert(is_space(p[0]));
            }
        }
        assert(trim_spec(p + a) =~= p.subrange(0, end_of(p)));
    }
}

/// Cutting the trailing whitespace first does not change the trim.
pub proof fn lemma_trim_end_trim(a: Seq<char>)
    ensures
        trim_spec(a.subrange(0, end_of(a))) == trim_spec(a),
{
    lemma_start_of(a);
    lemma_end_of(a);
    let e = end_of(a);
    let t = a.subrange(0, e);
    if e == 0 {
        assert(t.len() == 0);
        assert(start_of(t) == 0 && end_of(t) == 0);
        assert(trim_spec(t) =~= Seq::<char>::empty());
        // `a` is all whitespace, so its trim is empty as well.
        if a.len() > 0 {
            assert(start_of(a) == a.len()) by {
                lemma_start_of_unique(a, a.len() as int);
            }
            if start_of(a) <= end_of(a) {
                assert(trim_spec(a) =~= Seq::<char>::empty());
            }
        } else {
            assert(trim_spec(a) =~= Seq::<char>::empty());
        }
    } else {
        assert(!is_space(a[e - 1]));
        assert(start_of(a) < e) by {
            if start_of(a) >= e {
                assert(is_space(a[e - 1]));
            }
        }
        assert(start_of(t) == start_of(a)) by {
            lemma_start_of_unique(t, start_of(a));
        }
        assert(end_of(t) == e) by {
            lemma_end_of_unique(t, e);
        }
        assert(trim_spec(t) =~= trim_spec(a));
    }
}

/// Dropping one leading whitespace character does not change the trim.
pub proof fn lemma_trim_skip_space(s: Seq<char>)
    requires
        s.len() > 0,
        is_space(s[0]),
    ensures
        trim_spec(s.skip(1)) == trim_spec(s),
{
    let t = s.skip(1);
    lemma_start_of(s);
    lemma_end_of(s);
    assert(s.drop_first() =~= t);
    assert(start_of(s) == 1 + start_of(t));
    if end_of(s) == 0 {
        // All of `s` is whitespace; so is its tail.
        assert(end_of(t) == 0) by {
            lemma_end_of_unique(t, 0);
        }
        assert(start_of(s) > 0);
        assert(trim_spec(s) =~= Seq::<char>::empty());
        lemma_start_of(t);
        if start_of(t) <= end_of(t) {
            assert(trim_spec(t) =~= Seq::<char>::empty());
        }
    } else {
        assert(end_of(s) >= 2) by {
            assert(!is_space(s[end_of(s) - 1]));
        }
        assert(end_of(t) == end_of(s) - 1) by {
            assert forall|k: int| end_of(s) - 1 <= k < t.len() implies is_space(t[k]) by {
                assert(t[k] == s[k + 1]);
            }
            assert(t[end_of(s) - 2] == s[end_of(s) - 1]);
            lemma_end_of_unique(t, end_of(s) - 1);
        }
        if start_of(s) <= end_of(s) {
            assert(trim_spec(t) =~= trim_spec(s));
        } else {
            assert(trim_spec(s) =~= Seq::<char>::empty());
            assert(start_of(t) > end_of(t));
            assert(trim_spec(t) =~= Seq::<char>::empty());
        }
    }
}

/// Copies a string slice into a vector of its characters.
pub fn chars_of(s: &str) -> (r: Vec<char>)
    ensures
        r@ == s@,
{
    let n = s.unicode_len();
    let mut r: Vec<char> = Vec::new();
    let mut i: usize = 0;
    while i < n
        invariant
            n == s@.len(),
            i <= n,
            r@ == s@.take(i as int),
        decreases n - i,
    {
        r.push(s.get_char(i));
        proof {
            assert(r@ =~= s@.take(i as int + 1));
        }
        i = i + 1;
    }
    proof {
        assert(s@.take(n as int) =~= s@);
    }
    r
}

/// Appends a copy of `src` to `dst`.
pub fn push_all(dst: &mut Vec<char>, src: &Vec<char>)
    ensures
        final(dst)@ == old(dst)@ + src@,
{
    let mut i: usize = 0;
    while i < src.len()
        invariant
            i <= src@.len(),
            dst@ == old(dst)@ + src@.take(i as int),
        decreases src@.len() - i,
    {
        dst.push(src[i]);
        proof {
            assert(dst@ =~= old(dst)@ + src@.take(i as int + 1));
        }
        i = i + 1;
    }
    proof {
        assert(old(dst)@ + src@.take(src@.len() as int) =~= old(dst)@ + src@);
    }
}

/// ASCII-lowercases every character.
pub fn lowercase(v: &Vec<char>) -> (r: Vec<char>)
    ensures
        r@ == lower(v@),
{
    let mut r: Vec<char> = Vec::new();
    let mut i: usize = 0;
    while i < v.len()
        invariant
            i <= v@.len(),
            r@ == lower(v@).take(i as int),
        decreases v@.len() - i,
    {
        let c = v[i];
        let lc: char = match c {
            'A' => 'a',
            'B' => 'b',
            'C' => 'c',
            'D' => 'd',
            'E' => 'e',
            'F' => 'f',
            'G' => 'g',
            'H' => 'h',
            'I' => 'i',
            'J' => 'j',
            'K' => 'k',
            'L' => 'l',
            'M' => 'm',
            'N' => 'n',
            'O' => 'o',
            'P' => 'p',
            'Q' => 'q',
            'R' => 'r',
            'S' => 's',
            'T' => 't',
            'U' => 'u',
            'V' => 'v',
            'W' => 'w',
            'X' => 'x',
            'Y' => 'y',
            'Z' => 'z',
            _ => c,
        };
        assert(lc == lower_char(v@[i as int]));
        r.push(lc);
        proof {
            assert(r@ =~= lower(v@).take(i as int + 1));
        }
        i = i + 1;
    }
    proof {
        assert(lower(v@).take(v@.len() as int) =~= lower(v@));
    }
    r
}

/// Removes leading and trailing whitespace.
pub fn trim(v: &Vec<char>) -> (r: Vec<char>)
    ensures
        r@ == trim_spec(v@),
{
    let n = v.len();
    let mut a: usize = 0;
    while a < n && is_space_char(v[a])
        invariant
            n == v@.len(),
            a <= n,
            forall|k: int| 0 <= k < a ==> is_space(v@[k]),
        decreases n - a,
    {
        a = a + 1;
    }
    let mut b: usize = n;
    while b > a && is_space_char(v[b - 1])
        invariant
            n == v@.len(),
            a <= b <= n,
            forall|k: int| b <= k < n ==> is_space(v@[k]),
        decreases b,
    {
        b = b - 1;
    }
    proof {
        lemma_start_of(v@);
        lemma_end_of(v@);
        if a == b {
            // All of `v` is whitespace outside an empty middle: the trimmed
            // sequence is empty either way.
            assert(forall|k: int| 0 <= k < v@.len() ==> is_space(v@[k]));
            assert(start_of(v@) >= end_of(v@)) by {
                if start_of(v@) < end_of(v@) {
                    assert(!is_space(v@[end_of(v@) - 1]));
                }
            }
        } else {
            assert(!is_space(v@[a as int]));
            assert(!is_space(v@[b - 1 as int]));
            lemma_start_of_unique(v@, a as int);
            lemma_end_of_unique(v@, b as int);
        }
    }
    let mut r: Vec<char> = Vec::new();
    let mut i: usize = a;
    while i < b
        invariant
            a <= i <= b <= n,
            n == v@.len(),
            r@ == v@.subrange(a as int, i as int),
        decreases b - i,
    {
        r.push(v[i]);
        proof {
            assert(r@ =~= v@.subrange(a as int, i as int + 1));
        }
        i = i + 1;
    }
    proof {
        assert(r@ =~= trim_spec(v@));
    }
    r
}

/// Whether `c` is trimmed whitespace.
pub fn is_space_char(c: char) -> (r: bool)
    ensures
        r == is_space(c),
{
    c == ' ' || c == '\t' || c == '\n' || c == '\r' || c == '\u{c}'
}

/// Whether `v` starts with `p`.
pub fn starts_with(v: &Vec<char>, p: &Vec<char>) -> (r: bool)
    ensures
        r == p@.is_prefix_of(v@),
{
    if p.len() > v.len() {
        return false;
    }
    let mut i: usize = 0;
    while i < p.len()
        invariant
            p@.len() <= v@.len(),
            i <= p@.len(),
            forall|k: int| 0 <= k < i ==> v@[k] == p@[k],
        decreases p@.len() - i,
    {
        if v[i] != p[i] {
            assert(v@.subrange(0, p@.len() as int)[i as int] != p@[i as int]);
            return false;
        }
        i = i + 1;
    }
    proof {
        assert(p@ =~= v@.subrange(0, p@.len() as int));
    }
    true
}

/// The elements of `v` from index `k` on.
pub fn tail_from(v: &Vec<char>, k: usize) -> (r: Vec<char>)
    requires
        k <= v@.len(),
    ensures
        r@ == v@.skip(k as int),
{
    let mut r: Vec<char> = Vec::new();
    let mut i: usize = k;
    while i < v.len()
        invariant
            k <= i <= v@.len(),
            r@ == v@.subrange(k as int, i as int),
        decreases v@.len() - i,
    {
        r.push(v[i]);
        proof {
            assert(r@ =~= v@.subrange(k as int, i as int + 1));
        }
        i = i + 1;
    }
    proof {
        assert(v@.subrange(k as int, v@.len() as int) =~= v@.skip(k as int));
    }
    r
}

/// The sequence with every space removed.
pub open spec fn strip_spaces_spec(s: Seq<char>) -> Seq<char>
    decreases s.len(),
{
    if s.len() == 0 {
        Seq::empty()
    } else if s.last() == ' ' {
        strip_spaces_spec(s.drop_last())
    } else {
        strip_spaces_spec(s.drop_last()).push(s.last())
    }
}

/// Removes every space character.
pub fn strip_spaces(v: &Vec<char>) -> (r: Vec<char>)
    ensures
        r@ == strip_spaces_spec(v@),
{
    let mut r: Vec<char> = Vec::new();
    let mut i: usize = 0;
    while i < v.len()
        invariant
            i <= v@.len(),
            r@ == strip_spaces_spec(v@.take(i as int)),
        decreases v@.len() - i,
    {
        proof {
            assert(v@.take(i as int + 1).drop_last() =~= v@.take(i as int));
            assert(v@.take(i as int + 1).last() == v@[i as int]);
        }
        if v[i] != ' ' {
            r.push(v[i]);
        }
        i = i + 1;
    }
    proof {
        assert(v@.take(v@.len() as int) =~= v@);
    }
    r
}

/// Every space replaced by `'+'`.
pub open spec fn plus_for_spaces_spec(s: Seq<char>) -> Seq<char> {
    s.map_values(|c: char| if c == ' ' { '+' } else { c })
}

/// Replaces each space with `'+'`.
pub fn plus_for_spaces(v: &Vec<char>) -> (r: Vec<char>)
    ensures
        r@ == plus_for_spaces_spec(v@),
{
    let mut r: Vec<char> = Vec::new();
    let mut i: usize = 0;
    while i < v.len()
        invariant
            i <= v@.len(),
            r@ == plus_for_spaces_spec(v@).take(i as int),
        decreases v@.len() - i,
    {
        let c = v[i];
        if c == ' ' {
            r.push('+');
        } else {
            r.push(c);
        }
        proof {
            assert(r@ =~= plus_for_spaces_spec(v@).take(i as int + 1));
        }
        i = i + 1;
    }
    proof {
        assert(plus_for_spaces_spec(v@).take(v@.len() as int) =~= plus_for_spaces_spec(v@));
    }
    r
}

/// Copies `v`.
pub fn copied(v: &Vec<char>) -> (r: Vec<char>)
    ensures
        r@ == v@,
{
    let mut r: Vec<char> = Vec::new();
    push_all(&mut r, v);
    r
}

} // verus!
