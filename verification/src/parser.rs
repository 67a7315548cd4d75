//! The command parser: normalizes a raw command (trim, then ASCII lowercase)
//! and matches it against the fixed, ordered prefix lists of the Open and
//! Search groups. List order is part of the contract: the first listed prefix
//! that matches wins.

use vstd::prelude::*;

use crate::text::chars_of;
use crate::text::end_of;
use crate::text::is_space;
use crate::text::lemma_lower_concat;
use crate::text::lemma_trim_concat;
use crate::text::lemma_trim_end_trim;
use crate::text::lemma_trim_skip_space;
use crate::text::lower;
use crate::text::lowercase;
use crate::text::starts_with;
use crate::text::tail_from;
use crate::text::trim;
use crate::text::trim_spec;

verus! {

/// The intent carried by a command: open an application, search the web, or
/// nothing recognizable.
pub enum Intent {
    Open { arg: Vec<char> },
    Search { arg: Vec<char> },
    Invalid,
}

/// The second-language word for "open".
pub open spec fn alt_open_word() -> Seq<char> {
    seq!['\u{e40}', '\u{e1b}', '\u{e34}', '\u{e14}']
}

/// The second-language word for "search".
pub open spec fn alt_search_word() -> Seq<char> {
    seq!['\u{e04}', '\u{e49}', '\u{e19}', '\u{e2b}', '\u{e32}']
}

/// The Open prefixes, in the order they are tried.
pub open spec fn open_prefix_list() -> Seq<Seq<char>> {
    seq!["open "@, alt_open_word() + seq![' '], "open"@, alt_open_word()]
}

/// The Search prefixes, in the order they are tried.
pub open spec fn search_prefix_list() -> Seq<Seq<char>> {
    seq!["search "@, alt_search_word() + seq![' '], "search"@, alt_search_word()]
}

/// The first prefix of `ps` (in listed order) that `text` starts with; the
/// argument is the remainder, trimmed.
pub open spec fn match_prefix_list(ps: Seq<Seq<char>>, text: Seq<char>) -> Option<Seq<char>>
    decreases ps.len(),
{
    if ps.len() == 0 {
        None
    } else if ps[0].is_prefix_of(text) {
        Some(trim_spec(text.skip(ps[0].len() as int)))
    } else {
        match_prefix_list(ps.drop_first(), text)
    }
}

/// A raw command, trimmed and then ASCII-lowercased.
pub open spec fn normalized_of(raw: Seq<char>) -> Seq<char> {
    lower(trim_spec(raw))
}

/// The Open argument that parsing `raw` yields, if any.
pub open spec fn open_arg_of(raw: Seq<char>) -> Option<Seq<char>> {
    match_prefix_list(open_prefix_list(), normalized_of(raw))
}

/// The Search argument that parsing `raw` yields, if any.
pub open spec fn search_arg_of(raw: Seq<char>) -> Option<Seq<char>> {
    match_prefix_list(search_prefix_list(), normalized_of(raw))
}

/// The intent `parse` must return for `raw`: Open wins over Search, and a
/// text matching neither group is invalid.
pub open spec fn parse_ok(r: Intent, raw: Seq<char>) -> bool {
    match open_arg_of(raw) {
        Some(a) => r matches Intent::Open { arg } && arg@ == a,
        None => match search_arg_of(raw) {
            Some(a) => r matches Intent::Search { arg } && arg@ == a,
            None => r is Invalid,
        },
    }
}

/// Both prefix lists share one shape: a word of each language with a
/// trailing space, then the bare words, in that order.
spec fn word_list(w: Seq<char>, t: Seq<char>) -> Seq<Seq<char>> {
    seq![w + seq![' '], t + seq![' '], w, t]
}

/// What a well-formed pair of command words must look like: nonempty, not
/// whitespace at either end, already lowercase, and distinguishable by
/// their first character.
spec fn words_ok(w: Seq<char>, t: Seq<char>) -> bool {
    &&& w.len() > 0
    &&& t.len() > 0
    &&& !is_space(w[0])
    &&& !is_space(t[0])
    &&& !is_space(w.last())
    &&& !is_space(t.last())
    &&& w[0] != t[0]
    &&& lower(w) == w
    &&& lower(t) == t
}

/// One walk step past a prefix that does not match.
proof fn mpl_step_no(ps: Seq<Seq<char>>, n: Seq<char>)
    requires
        ps.len() > 0,
        !ps[0].is_prefix_of(n),
    ensures
        match_prefix_list(ps, n) == match_prefix_list(ps.drop_first(), n),
{
}

/// The walk stops at the first prefix that matches.
proof fn mpl_step_yes(ps: Seq<Seq<char>>, n: Seq<char>)
    requires
        ps.len() > 0,
        ps[0].is_prefix_of(n),
    ensures
        match_prefix_list(ps, n) == Some(trim_spec(n.skip(ps[0].len() as int))),
{
}

/// A lowercase argument stays itself under `lower`, index by index.
proof fn lemma_lower_id_subrange(a: Seq<char>, ae: Seq<char>)
    requires
        lower(a) == a,
        exists|lo: int, hi: int| 0 <= lo <= hi <= a.len() && ae == a.subrange(lo, hi),
    ensures
        lower(ae) == ae,
{
    let (lo, hi) = choose|lo: int, hi: int|
        0 <= lo <= hi <= a.len() && ae == a.subrange(lo, hi);
    assert forall|i: int| 0 <= i < ae.len() implies lower(ae)[i] == ae[i] by {
        assert(ae[i] == a[lo + i]);
        assert(lower(a)[lo + i] == a[lo + i]);
    }
    assert(lower(ae) =~= ae);
}

/// The first matching prefix of a word list, for a text built from the
/// `k`-th listed prefix and an arbitrary lowercase argument: the match
/// strips that prefix (or a listed variant of it) and leaves exactly the
/// trimmed argument. The normalized text is also pinned down enough to
/// decide matches against another word list: it is nonempty and starts with
/// the prefix's own first character.
proof fn lemma_word_list_match(w: Seq<char>, t: Seq<char>, k: int, a: Seq<char>)
    requires
        words_ok(w, t),
        lower(a) == a,
        0 <= k < 4,
    ensures
        match_prefix_list(word_list(w, t), normalized_of(word_list(w, t)[k] + a)) == Some(
            trim_spec(a),
        ),
        normalized_of(word_list(w, t)[k] + a).len() > 0,
        normalized_of(word_list(w, t)[k] + a)[0] == word_list(w, t)[k][0],
{
    let sp = seq![' '];
    let ls = word_list(w, t);
    let p = ls[k];
    let raw = p + a;
    assert(lower(sp) =~= sp);
    lemma_lower_concat(w, sp);
    lemma_lower_concat(t, sp);
    assert(p.len() > 0 && !is_space(p[0]) && lower(p) == p) by {
        assert((w + sp)[0] == w[0] && (t + sp)[0] == t[0]);
    }
    lemma_trim_concat(p, a);
    crate::text::lemma_end_of(a);
    crate::text::lemma_end_of(p);
    crate::text::lemma_end_of(w);
    crate::text::lemma_end_of(t);
    if end_of(a) > 0 {
        let ae = a.subrange(0, end_of(a));
        assert(trim_spec(raw) == p + ae);
        lemma_lower_id_subrange(a, ae);
        lemma_lower_concat(p, ae);
        let n = p + ae;
        assert(normalized_of(raw) == n);
        assert(n[0] == p[0] && n.len() > 0);
        assert(ae.len() > 0 && !is_space(ae.last()));
        lemma_trim_end_trim(a);
        lemma_match_on_word_text(w, t, k, ae);
    } else {
        // The argument is all whitespace: the normalized text is the bare
        // word, and the bare word is matched, leaving an empty argument.
        assert(end_of(w) == w.len()) by {
            crate::text::lemma_end_of_unique(w, w.len() as int);
        }
        assert(end_of(t) == t.len()) by {
            crate::text::lemma_end_of_unique(t, t.len() as int);
        }
        assert(end_of(w + sp) == w.len()) by {
            assert((w + sp)[w.len() as int] == ' ');
            assert((w + sp)[w.len() - 1] == w.last());
            crate::text::lemma_end_of_unique(w + sp, w.len() as int);
        }
        assert(end_of(t + sp) == t.len()) by {
            assert((t + sp)[t.len() as int] == ' ');
            assert((t + sp)[t.len() - 1] == t.last());
            crate::text::lemma_end_of_unique(t + sp, t.len() as int);
        }
        let word = if k == 0 || k == 2 {
            w
        } else {
            t
        };
        assert(trim_spec(raw) == word) by {
            if k == 0 {
                assert(p.subrange(0, end_of(p)) =~= w);
            } else if k == 1 {
                assert(p.subrange(0, end_of(p)) =~= t);
            } else if k == 2 {
                assert(p.subrange(0, end_of(p)) =~= w);
            } else {
                assert(p.subrange(0, end_of(p)) =~= t);
            }
        }
        let n = word;
        assert(normalized_of(raw) == n);
        assert(n[0] == p[0]) by {
            assert((w + sp)[0] == w[0] && (t + sp)[0] == t[0]);
        }
        assert(trim_spec(a) =~= Seq::<char>::empty()) by {
            crate::text::lemma_start_of(a);
        }
        assert(n.skip(n.len() as int) =~= Seq::<char>::empty());
        assert(trim_spec(Seq::<char>::empty()) =~= Seq::<char>::empty());
        // Walk the list: the longer spaced forms cannot match the bare word.
        assert(ls.drop_first() =~= seq![t + sp, w, t]);
        assert(seq![t + sp, w, t].drop_first() =~= seq![w, t]);
        assert(seq![w, t].drop_first() =~= seq![t]);
        if k == 0 || k == 2 {
            assert(!(w + sp).is_prefix_of(w));
            assert(!(t + sp).is_prefix_of(w)) by {
                if (t + sp).is_prefix_of(w) {
                    assert((t + sp)[0] == w.subrange(0, (t + sp).len() as int)[0]);
                    assert((t + sp)[0] == t[0]);
                }
            }
            assert(w.is_prefix_of(w)) by {
                assert(w.subrange(0, w.len() as int) =~= w);
            }
            mpl_step_no(ls, n);
            mpl_step_no(seq![t + sp, w, t], n);
            mpl_step_yes(seq![w, t], n);
            assert(match_prefix_list(ls, n) == Some(trim_spec(w.skip(w.len() as int))));
        } else {
            assert(!(w + sp).is_prefix_of(t)) by {
                if (w + sp).is_prefix_of(t) {
                    assert((w + sp)[0] == t.subrange(0, (w + sp).len() as int)[0]);
                    assert((w + sp)[0] == w[0]);
                }
            }
            assert(!(t + sp).is_prefix_of(t));
            assert(!w.is_prefix_of(t)) by {
                if w.is_prefix_of(t) {
                    assert(w[0] == t.subrange(0, w.len() as int)[0]);
                }
            }
            assert(t.is_prefix_of(t)) by {
                assert(t.subrange(0, t.len() as int) =~= t);
            }
            mpl_step_no(ls, n);
            mpl_step_no(seq![t + sp, w, t], n);
            mpl_step_no(seq![w, t], n);
            mpl_step_yes(seq![t], n);
            assert(match_prefix_list(ls, n) == Some(trim_spec(t.skip(t.len() as int))));
        }
    }
}

/// The list walk for a normalized text of the shape `word + argument` with
/// a trailing-trimmed, lowercase, nonempty argument.
proof fn lemma_match_on_word_text(w: Seq<char>, t: Seq<char>, k: int, ae: Seq<char>)
    requires
        words_ok(w, t),
        0 <= k < 4,
        ae.len() > 0,
        !is_space(ae.last()),
    ensures
        match_prefix_list(word_list(w, t), word_list(w, t)[k] + ae) == Some(trim_spec(ae)),
{
    let sp = seq![' '];
    let ls = word_list(w, t);
    let p = ls[k];
    let n = p + ae;
    assert(ls.drop_first() =~= seq![t + sp, w, t]);
    assert(seq![t + sp, w, t].drop_first() =~= seq![w, t]);
    assert(seq![w, t].drop_first() =~= seq![t]);
    crate::text::lemma_end_of(ae);
    if k == 0 {
        assert((w + sp).is_prefix_of(n)) by {
            assert(n.subrange(0, (w + sp).len() as int) =~= w + sp);
        }
        mpl_step_yes(ls, n);
        assert(n.skip((w + sp).len() as int) =~= ae);
    } else if k == 1 {
        assert(n[0] == t[0]);
        assert(!(w + sp).is_prefix_of(n)) by {
            if (w + sp).is_prefix_of(n) {
                assert((w + sp)[0] == n.subrange(0, (w + sp).len() as int)[0]);
            }
        }
        assert((t + sp).is_prefix_of(n)) by {
            assert(n.subrange(0, (t + sp).len() as int) =~= t + sp);
        }
        mpl_step_no(ls, n);
        mpl_step_yes(seq![t + sp, w, t], n);
        assert(n.skip((t + sp).len() as int) =~= ae);
    } else if k == 2 {
        assert(n[0] == w[0]);
        if ae[0] == ' ' {
            assert((w + sp).is_prefix_of(n)) by {
                assert forall|i: int| 0 <= i < (w + sp).len() implies n.subrange(
                    0,
                    (w + sp).len() as int,
                )[i] == (w + sp)[i] by {
                    if i < w.len() {
                        assert(n[i] == w[i]);
                    } else {
                        assert(n[i] == ae[0]);
                    }
                }
                assert(n.subrange(0, (w + sp).len() as int) =~= w + sp);
            }
            mpl_step_yes(ls, n);
            assert(n.skip((w + sp).len() as int) =~= ae.skip(1));
            lemma_trim_skip_space(ae);
        } else {
            assert(!(w + sp).is_prefix_of(n)) by {
                if (w + sp).is_prefix_of(n) {
                    assert((w + sp)[w.len() as int] == n.subrange(
                        0,
                        (w + sp).len() as int,
                    )[w.len() as int]);
                    assert(n[w.len() as int] == ae[0]);
                }
            }
            assert(!(t + sp).is_prefix_of(n)) by {
                if (t + sp).is_prefix_of(n) {
                    assert((t + sp)[0] == n.subrange(0, (t + sp).len() as int)[0]);
                }
            }
            assert(w.is_prefix_of(n)) by {
                assert(n.subrange(0, w.len() as int) =~= w);
            }
            mpl_step_no(ls, n);
            mpl_step_no(seq![t + sp, w, t], n);
            mpl_step_yes(seq![w, t], n);
            assert(n.skip(w.len() as int) =~= ae);
        }
    } else {
        assert(n[0] == t[0]);
        assert(!(w + sp).is_prefix_of(n)) by {
            if (w + sp).is_prefix_of(n) {
                assert((w + sp)[0] == n.subrange(0, (w + sp).len() as int)[0]);
            }
        }
        if ae[0] == ' ' {
            assert((t + sp).is_prefix_of(n)) by {
                assert forall|i: int| 0 <= i < (t + sp).len() implies n.subrange(
                    0,
                    (t + sp).len() as int,
                )[i] == (t + sp)[i] by {
                    if i < t.len() {
                        assert(n[i] == t[i]);
                    } else {
                        assert(n[i] == ae[0]);
                    }
                }
                assert(n.subrange(0, (t + sp).len() as int) =~= t + sp);
            }
            mpl_step_no(ls, n);
            mpl_step_yes(seq![t + sp, w, t], n);
            assert(n.skip((t + sp).len() as int) =~= ae.skip(1));
            lemma_trim_skip_space(ae);
        } else {
            assert(!(t + sp).is_prefix_of(n)) by {
                if (t + sp).is_prefix_of(n) {
                    assert((t + sp)[t.len() as int] == n.subrange(
                        0,
                        (t + sp).len() as int,
                    )[t.len() as int]);
                    assert(n[t.len() as int] == ae[0]);
                }
            }
            assert(!w.is_prefix_of(n)) by {
                if w.is_prefix_of(n) {
                    assert(w[0] == n.subrange(0, w.len() as int)[0]);
                }
            }
            assert(t.is_prefix_of(n)) by {
                assert(n.subrange(0, t.len() as int) =~= t);
            }
            mpl_step_no(ls, n);
            mpl_step_no(seq![t + sp, w, t], n);
            mpl_step_no(seq![w, t], n);
            mpl_step_yes(seq![t], n);
            assert(n.skip(t.len() as int) =~= ae);
        }
    }
}

/// No prefix of a word list matches a text that starts with neither word's
/// first character.
proof fn lemma_word_list_no_match(w: Seq<char>, t: Seq<char>, n: Seq<char>)
    requires
        words_ok(w, t),
        n.len() > 0,
        n[0] != w[0],
        n[0] != t[0],
    ensures
        match_prefix_list(word_list(w, t), n) is None,
{
    let sp = seq![' '];
    let ls = word_list(w, t);
    assert(ls.drop_first() =~= seq![t + sp, w, t]);
    assert(seq![t + sp, w, t].drop_first() =~= seq![w, t]);
    assert(seq![w, t].drop_first() =~= seq![t]);
    assert(!(w + sp).is_prefix_of(n)) by {
        if (w + sp).is_prefix_of(n) {
            assert((w + sp)[0] == n.subrange(0, (w + sp).len() as int)[0]);
        }
    }
    assert(!(t + sp).is_prefix_of(n)) by {
        if (t + sp).is_prefix_of(n) {
            assert((t + sp)[0] == n.subrange(0, (t + sp).len() as int)[0]);
        }
    }
    assert(!w.is_prefix_of(n)) by {
        if w.is_prefix_of(n) {
            assert(w[0] == n.subrange(0, w.len() as int)[0]);
        }
    }
    assert(!t.is_prefix_of(n)) by {
        if t.is_prefix_of(n) {
            assert(t[0] == n.subrange(0, t.len() as int)[0]);
        }
    }
    mpl_step_no(ls, n);
    mpl_step_no(seq![t + sp, w, t], n);
    mpl_step_no(seq![w, t], n);
    mpl_step_no(seq![t], n);
    assert(seq![t].drop_first() =~= Seq::<Seq<char>>::empty());
    assert(match_prefix_list(Seq::<Seq<char>>::empty(), n) is None);
}

/// Parsing, Open group: any listed Open prefix followed by an arbitrary
/// lowercase argument parses as `Open` of the trimmed argument.
/// (Normalization lowercases the whole command, so the law is stated for
/// arguments the normalizer leaves unchanged.)
pub proof fn lemma_parse_open_prefix(k: int, a: Seq<char>)
    requires
        0 <= k < open_prefix_list().len(),
        lower(a) == a,
    ensures
        open_arg_of(open_prefix_list()[k] + a) == Some(trim_spec(a)),
{
    reveal_strlit("open ");
    reveal_strlit("open");
    let w = "open"@;
    let t = alt_open_word();
    assert(open_prefix_list() =~~= word_list(w, t));
    assert(words_ok(w, t)) by {
        assert(lower(w) =~= w);
        assert(lower(t) =~= t);
    }
    lemma_word_list_match(w, t, k, a);
}

/// Parsing, Search group: any listed Search prefix followed by an arbitrary
/// lowercase argument matches no Open prefix and parses as `Search` of the
/// trimmed argument.
pub proof fn lemma_parse_search_prefix(k: int, a: Seq<char>)
    requires
        0 <= k < search_prefix_list().len(),
        lower(a) == a,
    ensures
        open_arg_of(search_prefix_list()[k] + a) is None,
        search_arg_of(search_prefix_list()[k] + a) == Some(trim_spec(a)),
{
    reveal_strlit("search ");
    reveal_strlit("search");
    reveal_strlit("open ");
    reveal_strlit("open");
    let w = "search"@;
    let t = alt_search_word();
    let wo = "open"@;
    let to = alt_open_word();
    assert(search_prefix_list() =~~= word_list(w, t));
    assert(open_prefix_list() =~~= word_list(wo, to));
    assert(words_ok(w, t)) by {
        assert(lower(w) =~= w);
        assert(lower(t) =~= t);
    }
    assert(words_ok(wo, to)) by {
        assert(lower(wo) =~= wo);
        assert(lower(to) =~= to);
    }
    lemma_word_list_match(w, t, k, a);
    let n = normalized_of(search_prefix_list()[k] + a);
    assert(n[0] == word_list(w, t)[k][0]);
    assert(n[0] == w[0] || n[0] == t[0]) by {
        assert((w + seq![' '])[0] == w[0]);
        assert((t + seq![' '])[0] == t[0]);
    }
    lemma_word_list_no_match(wo, to, n);
}

/// The word of the Open group in the second supported language.
pub fn alt_open_chars() -> (r: Vec<char>)
    ensures
        r@ == alt_open_word(),
{
    let mut r: Vec<char> = Vec::new();
    r.push('\u{e40}');
    r.push('\u{e1b}');
    r.push('\u{e34}');
    r.push('\u{e14}');
    proof {
        assert(r@ =~= alt_open_word());
    }
    r
}

/// The word of the Search group in the second supported language.
pub fn alt_search_chars() -> (r: Vec<char>)
    ensures
        r@ == alt_search_word(),
{
    let mut r: Vec<char> = Vec::new();
    r.push('\u{e04}');
    r.push('\u{e49}');
    r.push('\u{e19}');
    r.push('\u{e2b}');
    r.push('\u{e32}');
    proof {
        assert(r@ =~= alt_search_word());
    }
    r
}

/// The Open prefixes, in the order they are tried.
pub fn open_prefixes() -> (r: Vec<Vec<char>>)
    ensures
        r.deep_view() == open_prefix_list(),
{
    let mut r: Vec<Vec<char>> = Vec::new();
    r.push(chars_of("open "));
    let mut spaced = alt_open_chars();
    spaced.push(' ');
    r.push(spaced);
    r.push(chars_of("open"));
    r.push(alt_open_chars());
    proof {
        assert(spaced@ =~= alt_open_word() + seq![' ']);
        assert(r.deep_view() =~~= open_prefix_list());
    }
    r
}

/// The Search prefixes, in the order they are tried.
pub fn search_prefixes() -> (r: Vec<Vec<char>>)
    ensures
        r.deep_view() == search_prefix_list(),
{
    let mut r: Vec<Vec<char>> = Vec::new();
    r.push(chars_of("search "));
    let mut spaced = alt_search_chars();
    spaced.push(' ');
    r.push(spaced);
    r.push(chars_of("search"));
    r.push(alt_search_chars());
    proof {
        assert(spaced@ =~= alt_search_word() + seq![' ']);
        assert(r.deep_view() =~~= search_prefix_list());
    }
    r
}

/// Strips the first matching prefix of `prefixes` (in listed order) from
/// `command` and trims the remainder.
pub fn parse_prefix(command: &Vec<char>, prefixes: &Vec<Vec<char>>) -> (r: Option<Vec<char>>)
    ensures
        match r {
            Some(v) => match_prefix_list(prefixes.deep_view(), command@) == Some(v@),
            None => match_prefix_list(prefixes.deep_view(), command@) is None,
        },
{
    let ghost ps = prefixes.deep_view();
    proof {
        assert(ps.skip(0) =~= ps);
    }
    let mut i: usize = 0;
    while i < prefixes.len()
        invariant
            ps == prefixes.deep_view(),
            ps.len() == prefixes@.len(),
            i <= ps.len(),
            match_prefix_list(ps, command@) == match_prefix_list(ps.skip(i as int), command@),
            forall|k: int| 0 <= k < ps.len() ==> ps[k] == #[trigger] prefixes@[k]@,
        decreases ps.len() - i,
    {
        let p = &prefixes[i];
        if starts_with(command, p) {
            let rest = tail_from(command, p.len());
            let arg = trim(&rest);
            proof {
                assert(ps.skip(i as int)[0] == p@);
                assert(match_prefix_list(ps.skip(i as int), command@) == Some(
                    trim_spec(command@.skip(p@.len() as int)),
                ));
            }
            return Some(arg);
        }
        proof {
            assert(ps.skip(i as int)[0] == p@);
            assert(ps.skip(i as int).drop_first() =~= ps.skip(i as int + 1));
        }
        i = i + 1;
    }
    proof {
        assert(ps.skip(ps.len() as int).len() == 0);
    }
    None
}

/// Parses a raw command into its intent: normalize, then try the Open
/// prefixes, then the Search prefixes.
pub fn parse(raw: &Vec<char>) -> (r: Intent)
    ensures
        parse_ok(r, raw@),
{
    let trimmed = trim(raw);
    let normalized = lowercase(&trimmed);
    match parse_prefix(&normalized, &open_prefixes()) {
        Some(arg) => Intent::Open { arg },
        None => match parse_prefix(&normalized, &search_prefixes()) {
            Some(arg) => Intent::Search { arg },
            None => Intent::Invalid,
        },
    }
}

} // verus!

