//! Filenames computed from names, never the other way round.
//!
//! The stem of a patch is `{name} - {author}`. The stem is computed from the
//! TOML and compared; a stem is never parsed back into fields, so an author
//! called `Bits - Pieces` is fine.

use vstd::prelude::*;

use crate::text::{
    ascii_alphanumeric, control, is_ascii_alphanumeric, is_ascii_digit, is_ascii_lower, is_control, is_space, lower, owned, push_char,
    push_str, space, to_lower,
};

verus! {

/// Characters replaced with `_` because some filesystem refuses them.
pub open spec fn is_forbidden(c: char) -> bool {
    c == '/' || c == '\\' || c == ':' || c == '*' || c == '?' || c == '"' || c == '<'
        || c == '>' || c == '|'
}

/// The characters [`is_forbidden`] names, as a list.
pub fn forbidden() -> (list: Vec<char>)
    ensures
        forall|c: char| is_forbidden(c) <==> list@.contains(c),
{
    let list = vec!['/', '\\', ':', '*', '?', '"', '<', '>', '|'];
    assert forall|c: char| is_forbidden(c) implies list@.contains(c) by {
        if c == '/' { assert(list@[0] == c); }
        else if c == '\\' { assert(list@[1] == c); }
        else if c == ':' { assert(list@[2] == c); }
        else if c == '*' { assert(list@[3] == c); }
        else if c == '?' { assert(list@[4] == c); }
        else if c == '"' { assert(list@[5] == c); }
        else if c == '<' { assert(list@[6] == c); }
        else if c == '>' { assert(list@[7] == c); }
        else { assert(list@[8] == c); }
    }
    list
}

/// What one character turns into when it is kept.
pub open spec fn slug_char(c: char) -> char {
    if is_control(c) || is_forbidden(c) {
        '_'
    } else {
        c
    }
}

/// The slug of a text read so far, and whether a space is owed before the
/// next kept character.
pub open spec fn slug_run(s: Seq<char>) -> (Seq<char>, bool)
    decreases s.len(),
{
    if s.len() == 0 {
        (seq![], false)
    } else {
        let (out, pending) = slug_run(s.drop_last());
        let c = s.last();
        if is_space(c) {
            (out, true)
        } else if pending && out.len() > 0 {
            (out.push(' ').push(slug_char(c)), false)
        } else {
            (out.push(slug_char(c)), false)
        }
    }
}

/// The slug of a text: forbidden and control characters become `_`, runs of
/// whitespace become one space, and nothing is left at either end.
pub open spec fn slug_of(s: Seq<char>) -> Seq<char> {
    slug_run(s).0
}

/// Whether text is already what [`slug`] makes of any text: no forbidden or
/// control character, no whitespace but single spaces between words, and
/// none at either end.
pub open spec fn is_clean(s: Seq<char>) -> bool {
    &&& forall|i: int|
        0 <= i < s.len() ==> !is_control(#[trigger] s[i]) && !is_forbidden(s[i]) && (is_space(
            s[i],
        ) ==> s[i] == ' ')
    &&& s.len() > 0 ==> s[0] != ' ' && s.last() != ' '
    &&& forall|i: int| 0 <= i < s.len() - 1 ==> #[trigger] s[i] == ' ' ==> s[i + 1] != ' '
}

/// Makes text safe as part of a filename while keeping it readable.
///
/// Forbidden and control characters become `_`, runs of whitespace collapse to
/// one space, and the ends are trimmed. Nothing else changes.
pub fn slug(text: &str) -> (out: String)
    ensures
        out@ == slug_of(text@),
{
    let mut out = String::new();
    let mut pending_space = false;
    let mut empty = true;
    for character in it: text.chars()
        invariant
            it.seq() == text@,
            slug_run(it.seq().take(it.index() as int)) == (out@, pending_space),
            empty == (out@.len() == 0),
    {
        let ghost prefix = it.seq().take(it.index() as int);
        assert(it.seq().take(it.index() + 1).drop_last() == prefix);
        if space(character) {
            pending_space = true;
        } else {
            if pending_space && !empty {
                push_char(&mut out, ' ');
            }
            pending_space = false;
            if control(character) || is_forbidden_char(character) {
                push_char(&mut out, '_');
            } else {
                push_char(&mut out, character);
            }
            empty = false;
        }
    }
    assert(text@.take(text@.len() as int) == text@);
    out
}

fn is_forbidden_char(c: char) -> (r: bool)
    ensures
        r == is_forbidden(c),
{
    c == '/' || c == '\\' || c == ':' || c == '*' || c == '?' || c == '"' || c == '<' || c
        == '>' || c == '|'
}

/// The filename stem of a patch: `slug("{name} - {author}")`.
pub open spec fn stem_of(name: Seq<char>, author: Seq<char>) -> Seq<char> {
    slug_of(name + " - "@ + author)
}

/// The filename stem of a patch: `slug("{name} - {author}")`.
pub fn stem(name: &str, author: &str) -> (out: String)
    ensures
        out@ == stem_of(name@, author@),
{
    let mut joined = owned(name);
    push_str(&mut joined, " - ");
    push_str(&mut joined, author);
    proof {
        reveal_strlit(" - ");
    }
    slug(joined.as_str())
}

/// The filename stem of a demo: the patch stem, then ` (variant)` if any.
pub open spec fn demo_stem_of(patch_stem: Seq<char>, variant: Option<Seq<char>>) -> Seq<char> {
    match variant {
        Some(v) => patch_stem + " ("@ + slug_of(v) + ")"@,
        None => patch_stem,
    }
}

/// The filename stem of a demo: the patch stem, then ` (variant)` if any.
pub fn demo_stem(patch_stem: &str, variant: Option<&str>) -> (out: String)
    ensures
        out@ == demo_stem_of(patch_stem@, match variant { Some(v) => Some(v@), None => None }),
{
    match variant {
        Some(variant) => {
            let mut out = owned(patch_stem);
            push_str(&mut out, " (");
            let s = slug(variant);
            push_str(&mut out, s.as_str());
            push_str(&mut out, ")");
            proof {
                reveal_strlit(" (");
                reveal_strlit(")");
            }
            out
        },
        None => owned(patch_stem),
    }
}

/// The lowercase, dash-separated form of a text read so far, and whether a
/// dash is owed before the next letter or digit.
pub open spec fn kebab_run(s: Seq<char>) -> (Seq<char>, bool)
    decreases s.len(),
{
    if s.len() == 0 {
        (seq![], false)
    } else {
        let (out, dash) = kebab_run(s.drop_last());
        let c = s.last();
        if !is_ascii_alphanumeric(c) {
            (out, true)
        } else if dash && out.len() > 0 {
            (out.push('-').push(lower(c)), false)
        } else {
            (out.push(lower(c)), false)
        }
    }
}

/// ASCII letters and digits, lowercased, each run of anything else one `-`,
/// none at either end.
pub open spec fn kebab_of(s: Seq<char>) -> Seq<char> {
    kebab_run(s).0
}

/// A lowercase identifier part: ASCII letters and digits, runs of anything
/// else as one dash.
pub fn kebab(text: &str) -> (out: String)
    ensures
        out@ == kebab_of(text@),
{
    let mut out = String::new();
    let mut dash = false;
    let mut empty = true;
    for character in it: text.chars()
        invariant
            it.seq() == text@,
            kebab_run(it.seq().take(it.index() as int)) == (out@, dash),
            empty == (out@.len() == 0),
    {
        let ghost prefix = it.seq().take(it.index() as int);
        assert(it.seq().take(it.index() + 1).drop_last() == prefix);
        if ascii_alphanumeric(character) {
            if dash && !empty {
                push_char(&mut out, '-');
            }
            dash = false;
            push_char(&mut out, to_lower(character));
            empty = false;
        } else {
            dash = true;
        }
    }
    assert(text@.take(text@.len() as int) == text@);
    out
}

/// `category/[collection/]name-author`, each part in kebab form.
pub open spec fn id_of(
    category: Seq<char>,
    collection: Option<Seq<char>>,
    name: Seq<char>,
    author: Seq<char>,
) -> Seq<char> {
    let last = kebab_of(name) + "-"@ + kebab_of(author);
    match collection {
        Some(c) => kebab_of(category) + "/"@ + kebab_of(c) + "/"@ + last,
        None => kebab_of(category) + "/"@ + last,
    }
}

/// A lowercase, URL-safe identifier: `bass/acid-growl-nyx`.
///
/// Used for `id` in the index. Not a filename.
pub fn id(category: &str, collection: Option<&str>, name: &str, author: &str) -> (out: String)
    ensures
        out@ == id_of(
            category@,
            match collection { Some(c) => Some(c@), None => None },
            name@,
            author@,
        ),
{
    proof {
        reveal_strlit("/");
        reveal_strlit("-");
    }
    let mut out = kebab(category);
    push_str(&mut out, "/");
    if let Some(collection) = collection {
        let c = kebab(collection);
        push_str(&mut out, c.as_str());
        push_str(&mut out, "/");
    }
    let n = kebab(name);
    push_str(&mut out, n.as_str());
    push_str(&mut out, "-");
    let a = kebab(author);
    push_str(&mut out, a.as_str());
    out
}

/// Text as a slug is built: no forbidden or control character, whitespace
/// only as single spaces, none first.
pub open spec fn slug_shaped(s: Seq<char>) -> bool {
    &&& forall|i: int|
        0 <= i < s.len() ==> !is_control(#[trigger] s[i]) && !is_forbidden(s[i]) && (is_space(s[i]) ==> s[i] == ' ')
    &&& s.len() > 0 ==> s[0] != ' '
    &&& forall|i: int| 0 <= i < s.len() - 1 ==> #[trigger] s[i] == ' ' ==> s[i + 1] != ' '
}

/// What reading text as a slug leaves: the text with no space owed when it
/// ends in a word, and the text before its last space with one owed when it
/// ends in one.
proof fn lemma_run_of_shaped(t: Seq<char>)
    requires
        slug_shaped(t),
    ensures
        slug_run(t) == (if t.len() > 0 && t.last() == ' ' { (t.drop_last(), true) } else { (t, false) }),
    decreases t.len(),
{
    if t.len() > 0 {
        let p = t.drop_last();
        assert(slug_shaped(p)) by {
            assert forall|i: int| 0 <= i < p.len() implies !is_control(#[trigger] p[i]) && !is_forbidden(p[i]) && (is_space(
                p[i],
            ) ==> p[i] == ' ') by {
                assert(p[i] == t[i]);
            }
            assert forall|i: int| 0 <= i < p.len() - 1 && #[trigger] p[i] == ' ' implies p[i + 1] != ' ' by {
                assert(p[i] == t[i] && p[i + 1] == t[i + 1]);
            }
            if p.len() > 0 {
                assert(p[0] == t[0]);
            }
        }
        lemma_run_of_shaped(p);
        let c = t.last();
        assert(c == t[t.len() - 1]);
        if c == ' ' {
            assert(is_space(c));
            if p.len() > 0 {
                assert(p.last() == t[t.len() - 2]);
                assert(t[t.len() - 2] != ' ');
            }
        } else {
            assert(!is_space(c));
            assert(slug_char(c) == c);
            if p.len() > 0 && p.last() == ' ' {
                assert(p.len() >= 2);
                assert(p.drop_last().push(' ').push(c) =~= t);
            } else {
                assert(p.push(c) =~= t);
            }
        }
    }
}

/// Every slug is clean: nothing forbidden, no control character, single
/// spaces between words and none at either end.
pub proof fn lemma_slug_is_clean(s: Seq<char>)
    ensures
        is_clean(slug_of(s)),
{
    lemma_slug_run_shaped(s);
}

proof fn lemma_slug_run_shaped(s: Seq<char>)
    ensures
        is_clean(slug_run(s).0),
    decreases s.len(),
{
    if s.len() > 0 {
        lemma_slug_run_shaped(s.drop_last());
        let (out, pending) = slug_run(s.drop_last());
        let c = s.last();
        let k = slug_char(c);
        if !is_space(c) {
            assert(!is_control(k) && !is_forbidden(k) && !is_space(k));
            let next = slug_run(s).0;
            if pending && out.len() > 0 {
                assert(next == out.push(' ').push(k));
                assert forall|i: int| 0 <= i < next.len() - 1 && #[trigger] next[i] == ' ' implies next[i + 1] != ' ' by {
                    if i < out.len() - 1 {
                        assert(next[i] == out[i] && next[i + 1] == out[i + 1]);
                    } else if i == out.len() - 1 {
                        assert(next[i] == out.last());
                    }
                }
                assert forall|i: int| 0 <= i < next.len() implies !is_control(#[trigger] next[i]) && !is_forbidden(next[i]) && (
                is_space(next[i]) ==> next[i] == ' ') by {
                    if i < out.len() {
                        assert(next[i] == out[i]);
                    }
                }
                assert(next[0] == out[0]);
            } else {
                assert(next == out.push(k));
                assert forall|i: int| 0 <= i < next.len() - 1 && #[trigger] next[i] == ' ' implies next[i + 1] != ' ' by {
                    if i < out.len() - 1 {
                        assert(next[i] == out[i] && next[i + 1] == out[i + 1]);
                    }
                }
                assert forall|i: int| 0 <= i < next.len() implies !is_control(#[trigger] next[i]) && !is_forbidden(next[i]) && (
                is_space(next[i]) ==> next[i] == ' ') by {
                    if i < out.len() {
                        assert(next[i] == out[i]);
                    }
                }
                if out.len() > 0 {
                    assert(next[0] == out[0]);
                }
            }
        }
    }
}

/// A slug is its own slug: making a filename part twice changes nothing.
pub proof fn lemma_slug_idempotent(s: Seq<char>)
    ensures
        slug_of(slug_of(s)) == slug_of(s),
{
    let t = slug_of(s);
    lemma_slug_is_clean(s);
    lemma_run_of_shaped(t);
}

/// A slug keeps every character of the text that is not whitespace, in
/// order, each control or forbidden one as `_`; the only characters it adds
/// are spaces.
pub proof fn lemma_slug_keeps_characters(s: Seq<char>)
    ensures
        slug_of(s).filter(|c: char| c != ' ') == s.filter(|c: char| !is_space(c)).map_values(|c: char| slug_char(c)),
    decreases s.len(),
{
    reveal(Seq::filter);
    if s.len() > 0 {
        let p = s.drop_last();
        let c = s.last();
        let (out, pending) = slug_run(p);
        lemma_slug_keeps_characters(p);
        let kept = p.filter(|c: char| !is_space(c));
        if !is_space(c) {
            let x = slug_char(c);
            assert(x != ' ');
            assert(s.filter(|c: char| !is_space(c)) == kept.push(c));
            assert(kept.push(c).drop_last() =~= kept);
            assert(kept.push(c).map_values(|c: char| slug_char(c)) =~= kept.map_values(|c: char| slug_char(c)).push(x));
            if pending && out.len() > 0 {
                assert(out.push(' ').drop_last() =~= out);
                assert(out.push(' ').push(x).drop_last() =~= out.push(' '));
                assert(out.push(' ').filter(|c: char| c != ' ') == out.filter(|c: char| c != ' '));
                assert(out.push(' ').push(x).filter(|c: char| c != ' ') == out.push(' ').filter(|c: char| c != ' ').push(x));
            } else {
                assert(out.push(x).drop_last() =~= out);
                assert(out.push(x).filter(|c: char| c != ' ') == out.filter(|c: char| c != ' ').push(x));
            }
        } else {
            assert(s.filter(|c: char| !is_space(c)) == kept);
        }
    }
}

/// Whether text holds a character that is not whitespace.
pub open spec fn has_word(s: Seq<char>) -> bool {
    exists|i: int| 0 <= i < s.len() && !is_space(#[trigger] s[i])
}

proof fn lemma_run_state(s: Seq<char>)
    ensures
        has_word(s) <==> slug_run(s).0.len() > 0,
        s.len() > 0 && !is_space(s.last()) ==> !slug_run(s).1,
        s.len() > 0 && is_space(s.last()) ==> slug_run(s).1,
    decreases s.len(),
{
    if s.len() > 0 {
        let p = s.drop_last();
        lemma_run_state(p);
        if has_word(p) {
            let i = choose|i: int| 0 <= i < p.len() && !is_space(#[trigger] p[i]);
            assert(s[i] == p[i]);
        }
        if has_word(s) && !has_word(p) {
            let i = choose|i: int| 0 <= i < s.len() && !is_space(#[trigger] s[i]);
            if i < p.len() {
                assert(p[i] == s[i]);
            }
            assert(!is_space(s.last()));
        }
        if !is_space(s.last()) {
            assert(!is_space(s[s.len() - 1]));
        }
    }
}

proof fn lemma_run_after_spaces(a: Seq<char>, w: Seq<char>)
    requires
        w.len() > 0,
        forall|i: int| 0 <= i < w.len() ==> is_space(#[trigger] w[i]),
    ensures
        slug_run(a + w) == (slug_run(a).0, true),
    decreases w.len(),
{
    let v = w.drop_last();
    assert((a + w).drop_last() =~= a + v);
    assert((a + w).last() == w.last());
    assert(is_space(w[w.len() - 1]));
    if v.len() > 0 {
        assert forall|i: int| 0 <= i < v.len() implies is_space(#[trigger] v[i]) by {
            assert(v[i] == w[i]);
        }
        lemma_run_after_spaces(a, v);
    } else {
        assert(a + v =~= a);
    }
}

proof fn lemma_run_after_gap(a: Seq<char>, b: Seq<char>)
    requires
        slug_run(a).0.len() > 0,
        slug_run(a).1,
    ensures
        has_word(b) ==> slug_run(a + b) == (slug_run(a).0 + seq![' '] + slug_run(b).0, slug_run(b).1),
        !has_word(b) ==> slug_run(a + b) == slug_run(a),
    decreases b.len(),
{
    if b.len() == 0 {
        assert(a + b =~= a);
    } else {
        let p = b.drop_last();
        let c = b.last();
        assert((a + b).drop_last() =~= a + p);
        assert((a + b).last() == c);
        lemma_run_after_gap(a, p);
        lemma_run_state(p);
        lemma_run_state(b);
        if has_word(p) {
            let i = choose|i: int| 0 <= i < p.len() && !is_space(#[trigger] p[i]);
            assert(b[i] == p[i]);
        }
        if !has_word(b) {
            assert(is_space(b[b.len() - 1]));
            assert forall|i: int| 0 <= i < p.len() implies is_space(#[trigger] p[i]) by {
                assert(b[i] == p[i]);
            }
        }
        let (r, q) = slug_run(p);
        let sc = slug_char(c);
        if !is_space(c) && has_word(p) {
            let left = slug_run(a).0 + seq![' '] + r;
            assert(left.push(' ').push(sc) =~= slug_run(a).0 + seq![' '] + r.push(' ').push(sc));
            assert(left.push(sc) =~= slug_run(a).0 + seq![' '] + r.push(sc));
        } else if !is_space(c) {
            assert(r.len() == 0);
            assert(slug_run(a).0.push(' ').push(sc) =~= slug_run(a).0 + seq![' '] + r.push(sc));
        }
    }
}

proof fn lemma_run_adjacent(a: Seq<char>, b: Seq<char>)
    requires
        slug_run(a).0.len() > 0,
        !slug_run(a).1,
        b.len() > 0,
        !is_space(b[0]),
    ensures
        slug_run(a + b) == (slug_run(a).0 + slug_run(b).0, slug_run(b).1),
    decreases b.len(),
{
    let p = b.drop_last();
    let c = b.last();
    assert((a + b).drop_last() =~= a + p);
    assert((a + b).last() == c);
    let sc = slug_char(c);
    if p.len() == 0 {
        assert(a + p =~= a);
        assert(slug_run(p) == (Seq::<char>::empty(), false));
        assert(!is_space(c));
        assert(slug_run(a).0.push(sc) =~= slug_run(a).0 + seq![].push(sc));
    } else {
        assert(p[0] == b[0]);
        lemma_run_adjacent(a, p);
        lemma_run_state(p);
        assert(has_word(p)) by {
            assert(!is_space(p[0]));
        }
        let (r, q) = slug_run(p);
        let left = slug_run(a).0 + r;
        assert(left.push(' ').push(sc) =~= slug_run(a).0 + r.push(' ').push(sc));
        assert(left.push(sc) =~= slug_run(a).0 + r.push(sc));
    }
}

/// Whitespace between two words becomes one space: the slug of a text
/// with words on both sides of a run of whitespace is the slug of each
/// side, joined by one space.
pub proof fn lemma_slug_joins_words(a: Seq<char>, w: Seq<char>, b: Seq<char>)
    requires
        has_word(a),
        has_word(b),
        w.len() > 0,
        forall|i: int| 0 <= i < w.len() ==> is_space(#[trigger] w[i]),
    ensures
        slug_of(a + w + b) == slug_of(a) + seq![' '] + slug_of(b),
{
    lemma_run_state(a);
    lemma_run_state(b);
    lemma_run_after_spaces(a, w);
    lemma_run_after_gap(a + w, b);
}

/// Where no whitespace stands between two characters, none is put: the
/// slug of a text that ends in a character other than whitespace, followed
/// by one that starts with such a character, is the two slugs run together.
pub proof fn lemma_slug_keeps_words_whole(a: Seq<char>, b: Seq<char>)
    requires
        a.len() > 0,
        !is_space(a.last()),
        b.len() > 0,
        !is_space(b[0]),
    ensures
        slug_of(a + b) == slug_of(a) + slug_of(b),
{
    lemma_run_state(a);
    assert(has_word(a)) by {
        assert(!is_space(a[a.len() - 1]));
    }
    lemma_run_adjacent(a, b);
}

/// An identifier part is lowercase ASCII letters and digits in runs joined
/// by single dashes, with no dash at either end.
pub proof fn lemma_kebab_is_url_safe(s: Seq<char>)
    ensures
        ({
            let k = kebab_of(s);
            &&& forall|i: int| 0 <= i < k.len() ==> is_ascii_lower(#[trigger] k[i]) || is_ascii_digit(k[i]) || k[i] == '-'
            &&& k.len() > 0 ==> k[0] != '-' && k.last() != '-'
            &&& forall|i: int| 0 <= i < k.len() - 1 ==> #[trigger] k[i] == '-' ==> k[i + 1] != '-'
        }),
    decreases s.len(),
{
    if s.len() > 0 {
        lemma_kebab_is_url_safe(s.drop_last());
        let (out, dash) = kebab_run(s.drop_last());
        let c = s.last();
        if is_ascii_alphanumeric(c) {
            let l = lower(c);
            assert(is_ascii_lower(l) || is_ascii_digit(l));
            let next = kebab_of(s);
            if dash && out.len() > 0 {
                assert(next == out.push('-').push(l));
                assert(next[0] == out[0]);
                assert forall|i: int| 0 <= i < next.len() - 1 && #[trigger] next[i] == '-' implies next[i + 1] != '-' by {
                    if i < out.len() - 1 {
                        assert(next[i] == out[i] && next[i + 1] == out[i + 1]);
                    } else if i == out.len() - 1 {
                        assert(next[i] == out.last());
                    }
                }
                assert forall|i: int| 0 <= i < next.len() implies is_ascii_lower(#[trigger] next[i]) || is_ascii_digit(next[i])
                    || next[i] == '-' by {
                    if i < out.len() {
                        assert(next[i] == out[i]);
                    }
                }
            } else {
                assert(next == out.push(l));
                assert forall|i: int| 0 <= i < next.len() - 1 && #[trigger] next[i] == '-' implies next[i + 1] != '-' by {
                    if i < out.len() - 1 {
                        assert(next[i] == out[i] && next[i + 1] == out[i + 1]);
                    }
                }
                assert forall|i: int| 0 <= i < next.len() implies is_ascii_lower(#[trigger] next[i]) || is_ascii_digit(next[i])
                    || next[i] == '-' by {
                    if i < out.len() {
                        assert(next[i] == out[i]);
                    }
                }
                if out.len() > 0 {
                    assert(next[0] == out[0]);
                }
            }
        }
    }
}

} // verus!
