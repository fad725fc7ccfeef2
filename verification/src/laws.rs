//! Properties that hold across the library's operations.
use vstd::prelude::*;
use crate::chars::{line_end, lemma_line_end, lines_from, strip_cr, is_blank, join, lemma_word_end, split_lines, word_end, words, words_from, is_ws, trim_end, trim_start, lemma_trim_end_prefix, lemma_trim_start_suffix};
use crate::input::{key_step, quits, KeyEvent};
use crate::layout::{deeper_run, rails, author_label, collapsed_note, comment_lines, layout_from, prefix_for, selected_prefix, separator, 
    break_point, descendants, lemma_deeper_run, lemma_last_space_below, lemma_owner_range,
    line_pieces, lines_pieces, owned_lines, owner_range, room, scroll_target, visible,
    visible_from, wrap_pieces, wrapped, wrapped_cont, lemma_owned_lines_append, LineView,
};
use crate::hn::{commtext, expanded_links, lemma_row_bounds, page_comments, row_bounds, row_comment};
use crate::model::Comment;
use crate::spans::{cells_text, lemma_run_end, osc8_safe, run_end, runs_from, CellView};
use crate::text::{is_fence_line, cleaned, drop_blank_tail, first_link, first_url, is_closing_mark, is_opening_mark, is_web_link, link_candidate, strip_backticks, trim_closing, trim_opening, unfenced_lines, flat_scan, flattened, fold_scan, folded, html_line, html_raw_text, html_text, newlines};
use crate::reader::{
    after_select_next, after_select_previous, after_toggle_collapse, coherent, lemma_position_from,
    position_of, AppView, Effect,
};

verus! {

// ---------------------------------------------------------------------------
// Wrapping
// ---------------------------------------------------------------------------

proof fn lemma_wrap_pieces_fit(rest: Seq<char>, avail: int)
    requires
        avail >= 1,
    ensures
        forall|i: int| 0 <= i < wrap_pieces(rest, avail).len() ==> #[trigger] wrap_pieces(rest, avail)[i].len() <= avail,
    decreases rest.len(),
{
    if rest.len() > avail {
        let k = break_point(rest, avail);
        lemma_last_space_below(rest, avail);
        lemma_trim_start_suffix(rest.subrange(k, rest.len() as int));
        lemma_trim_end_prefix(rest.subrange(0, k));
        let next = trim_start(rest.subrange(k, rest.len() as int));
        lemma_wrap_pieces_fit(next, avail);
        let head = seq![trim_end(rest.subrange(0, k))];
        assert forall|i: int| 0 <= i < wrap_pieces(rest, avail).len() implies #[trigger] wrap_pieces(rest, avail)[i].len() <= avail by {
            if i > 0 {
                assert(wrap_pieces(rest, avail)[i] == wrap_pieces(next, avail)[i - 1]);
            }
        }
    }
}

proof fn lemma_lines_pieces_fit(ls: Seq<Seq<char>>, avail: int)
    requires
        avail >= 1,
    ensures
        forall|i: int| 0 <= i < lines_pieces(ls, avail).len() ==> #[trigger] lines_pieces(ls, avail)[i].len() <= avail,
    decreases ls.len(),
{
    if ls.len() > 0 {
        lemma_lines_pieces_fit(ls.drop_last(), avail);
        let a = lines_pieces(ls.drop_last(), avail);
        let b = line_pieces(ls.last(), avail);
        if trim_end(ls.last()).len() > 0 {
            lemma_wrap_pieces_fit(trim_end(ls.last()), avail);
        }
        assert forall|i: int| 0 <= i < lines_pieces(ls, avail).len() implies #[trigger] lines_pieces(ls, avail)[i].len() <= avail by {
            if i < a.len() {
                assert(lines_pieces(ls, avail)[i] == a[i]);
            } else {
                assert(lines_pieces(ls, avail)[i] == b[i - a.len()]);
            }
        }
    }
}

/// Wrapped lines fit: every line that text takes after a prefix holds the
/// prefix and at most as many more characters as the room the width leaves
/// (at least one), and belongs to the given owner.
pub proof fn law_wrapped_lines_fit(prefix: Seq<char>, text: Seq<char>, width: int, owner: Option<usize>)
    ensures
        forall|i: int| 0 <= i < wrapped(prefix, text, width, owner).len() ==> {
            &&& (#[trigger] wrapped(prefix, text, width, owner)[i]).0.len() <= prefix.len() + room(prefix, width)
            &&& wrapped(prefix, text, width, owner)[i].0.subrange(0, prefix.len() as int) == prefix
            &&& wrapped(prefix, text, width, owner)[i].1 == owner
        },
{
    let avail = room(prefix, width);
    let ps = lines_pieces(crate::chars::split_lines(text), avail);
    lemma_lines_pieces_fit(crate::chars::split_lines(text), avail);
    assert forall|i: int| 0 <= i < wrapped(prefix, text, width, owner).len() implies {
        &&& (#[trigger] wrapped(prefix, text, width, owner)[i]).0.len() <= prefix.len() + room(prefix, width)
        &&& wrapped(prefix, text, width, owner)[i].0.subrange(0, prefix.len() as int) == prefix
        &&& wrapped(prefix, text, width, owner)[i].1 == owner
    } by {
        assert(wrapped(prefix, text, width, owner)[i] == (prefix + ps[i], owner));
        assert((prefix + ps[i]).subrange(0, prefix.len() as int) =~= prefix);
    }
}

proof fn lemma_lines_pieces_first(ls: Seq<Seq<char>>, avail: int)
    requires
        ls.len() > 0,
    ensures
        lines_pieces(ls, avail) == line_pieces(ls[0], avail) + lines_pieces(ls.drop_first(), avail),
    decreases ls.len(),
{
    if ls.len() == 1 {
        assert(ls.drop_first() =~= Seq::<Seq<char>>::empty());
        assert(ls.drop_last() =~= Seq::<Seq<char>>::empty());
        assert(lines_pieces(ls.drop_last(), avail) =~= Seq::<Seq<char>>::empty());
        assert(lines_pieces(ls.drop_first(), avail) =~= Seq::<Seq<char>>::empty());
        assert(ls.last() == ls[0]);
        assert(lines_pieces(ls, avail) =~= line_pieces(ls[0], avail) + lines_pieces(ls.drop_first(), avail));
    } else {
        lemma_lines_pieces_first(ls.drop_last(), avail);
        assert(ls.drop_last().drop_first() =~= ls.drop_first().drop_last());
        assert(ls.drop_first().last() == ls.last());
        assert(ls.drop_last()[0] == ls[0]);
        assert(lines_pieces(ls, avail) =~= line_pieces(ls[0], avail) + lines_pieces(ls.drop_first(), avail));
    }
}

/// Wrapping with the same prefix for the first line and the later ones is
/// plain wrapping after that prefix.
pub proof fn law_same_prefixes_wrap_plainly(prefix: Seq<char>, text: Seq<char>, width: int, owner: Option<usize>)
    ensures
        wrapped_cont(prefix, prefix, text, width, owner) == wrapped(prefix, text, width, owner),
{
    let ls = split_lines(text);
    let a = room(prefix, width);
    if ls.len() > 0 {
        lemma_lines_pieces_first(ls, a);
        lemma_owned_lines_append(line_pieces(ls[0], a), lines_pieces(ls.drop_first(), a), prefix, owner);
        let r = trim_end(ls[0]);
        if r.len() == 0 {
            assert(owned_lines(line_pieces(ls[0], a), prefix, owner) =~= seq![(prefix + Seq::<char>::empty(), owner)]);
            assert(prefix + Seq::<char>::empty() =~= prefix);
        } else if r.len() <= a {
            assert(owned_lines(line_pieces(ls[0], a), prefix, owner) =~= seq![(prefix + r, owner)]);
        } else {
            let k = break_point(r, a);
            let piece = trim_end(r.subrange(0, k));
            let next = trim_start(r.subrange(k, r.len() as int));
            assert(line_pieces(ls[0], a) == seq![piece] + wrap_pieces(next, a));
            lemma_owned_lines_append(seq![piece], wrap_pieces(next, a), prefix, owner);
            assert(owned_lines(seq![piece], prefix, owner) =~= seq![(prefix + piece, owner)]);
        }
        assert(wrapped_cont(prefix, prefix, text, width, owner) =~= wrapped(prefix, text, width, owner));
    } else {
        assert(wrapped(prefix, text, width, owner) =~= seq![]);
    }
}

// ---------------------------------------------------------------------------
// Whitespace folding
// ---------------------------------------------------------------------------

/// Two neighbouring characters of folded text: a space is followed by a
/// word character, and a line break is not followed by a space.
pub open spec fn folded_pair(a: char, b: char) -> bool {
    &&& a == ' ' ==> !is_ws(b)
    &&& a == '\n' ==> b != ' '
}

/// Text in folded form: no whitespace at either end, no whitespace but
/// spaces and line breaks, single spaces between words, no space beside a
/// line break, and never more than one blank line in a row.
pub open spec fn is_folded(t: Seq<char>) -> bool {
    &&& t.len() > 0 ==> !is_ws(t[0]) && !is_ws(t.last())
    &&& forall|i: int| 0 <= i < t.len() && is_ws(#[trigger] t[i]) ==> t[i] == ' ' || t[i] == '\n'
    &&& forall|i: int, j: int| #![trigger t[i], t[j]] 0 <= i && j == i + 1 && j < t.len() ==> folded_pair(t[i], t[j])
    &&& forall|i: int, j: int, k: int| #![trigger t[i], t[j], t[k]]
        0 <= i && j == i + 1 && k == j + 1 && k < t.len() && t[i] == '\n' && t[j] == '\n' ==> t[k] != '\n'
}

proof fn lemma_newlines(n: nat)
    ensures
        newlines(n).len() == n,
        forall|k: int| 0 <= k < n ==> #[trigger] newlines(n)[k] == '\n',
    decreases n,
{
    if n > 0 {
        lemma_newlines((n - 1) as nat);
    }
}

proof fn lemma_fold_scan(s: Seq<char>, n: int)
    requires
        0 <= n <= s.len(),
    ensures
        ({
            let (out, space, nl) = fold_scan(s, n);
            &&& is_folded(out)
            &&& nl <= 2
            &&& out.len() == 0 ==> nl == 0 && !space
            &&& space ==> nl == 0
        }),
    decreases n,
{
    if n > 0 {
        lemma_fold_scan(s, n - 1);
        let (out, space, nl) = fold_scan(s, n - 1);
        let c = s[n - 1];
        if c != '\n' && !is_ws(c) {
            let gap: Seq<char> = if nl == 0 && space {
                seq![' ']
            } else {
                seq![]
            };
            let x = out + newlines(nl) + gap.push(c);
            assert(fold_scan(s, n).0 == x);
            lemma_newlines(nl);
            let m = out.len() + nl;
            assert forall|k: int| 0 <= k < x.len() implies #[trigger] x[k] == (if k < out.len() {
                out[k]
            } else if k < m {
                '\n'
            } else if k == x.len() - 1 {
                c
            } else {
                ' '
            }) by {
                if out.len() <= k < m {
                    assert(x[k] == newlines(nl)[k - out.len()]);
                }
            }
            assert(x.last() == c);
            assert forall|i: int, j: int| #![trigger x[i], x[j]] 0 <= i && j == i + 1 && j < x.len()
                implies folded_pair(x[i], x[j]) by {
                if j < out.len() {
                    assert(folded_pair(out[i], out[j]));
                } else if i == out.len() - 1 {
                    assert(out[i] == out.last());
                }
            }
            assert forall|i: int, j: int, k: int| #![trigger x[i], x[j], x[k]]
                0 <= i && j == i + 1 && k == j + 1 && k < x.len() && x[i] == '\n' && x[j] == '\n' implies x[k] != '\n' by {
                if k < out.len() {
                    assert(out[i] == '\n' && out[j] == '\n');
                } else if j == out.len() - 1 || i == out.len() - 1 {
                    assert(out.last() == out[out.len() - 1]);
                }
            }
            assert forall|i: int| 0 <= i < x.len() && is_ws(#[trigger] x[i]) implies x[i] == ' ' || x[i] == '\n' by {
                if i < out.len() {
                    assert(is_ws(out[i]));
                }
            }
        }
    }
}

/// Folded text is in folded form, whatever came in: this holds of the text
/// of every HTML fragment and of every collapsed string.
pub proof fn law_folding_leaves_folded_text(s: Seq<char>)
    ensures
        is_folded(folded(s)),
        is_folded(html_text(s)),
{
    lemma_fold_scan(s, s.len() as int);
    let raw = html_raw_text(s, true);
    lemma_fold_scan(raw, raw.len() as int);
}

/// Where folding stands after the first `n` characters of text that is
/// already folded: the text so far without its trailing whitespace, and
/// that whitespace as a pending space or pending line breaks.
pub open spec fn folded_prefix_state(t: Seq<char>, n: int) -> (Seq<char>, bool, nat) {
    if n <= 0 {
        (Seq::empty(), false, 0)
    } else if !is_ws(t[n - 1]) {
        (t.subrange(0, n), false, 0)
    } else if t[n - 1] == ' ' {
        (t.subrange(0, n - 1), true, 0)
    } else if n >= 2 && t[n - 2] == '\n' {
        (t.subrange(0, n - 2), false, 2)
    } else {
        (t.subrange(0, n - 1), false, 1)
    }
}

proof fn lemma_fold_scan_of_folded(t: Seq<char>, n: int)
    requires
        is_folded(t),
        0 <= n <= t.len(),
    ensures
        fold_scan(t, n) == folded_prefix_state(t, n),
        n > 0 && is_ws(t[n - 1]) ==> n >= 2 && !is_ws(t[n - 2]) || (n >= 3 && t[n - 2] == '\n' && !is_ws(t[n - 3])),
    decreases n,
{
    if n > 0 {
        lemma_fold_scan_of_folded(t, n - 1);
        let c = t[n - 1];
        if n >= 2 {
            assert(folded_pair(t[n - 2], t[n - 1]));
        }
        if n >= 3 {
            assert(folded_pair(t[n - 3], t[n - 2]));
        }
        if is_ws(c) {
            assert(n >= 2) by {
                if n == 1 {
                    assert(t[0] == c);
                }
            }
        }
        if !is_ws(c) {
            lemma_newlines(fold_scan(t, n - 1).2);
            let (out, space, nl) = fold_scan(t, n - 1);
            let gap: Seq<char> = if nl == 0 && space {
                seq![' ']
            } else {
                seq![]
            };
            assert(out + newlines(nl) + gap.push(c) =~= t.subrange(0, n));
        } else if c == '\n' && n >= 3 && t[n - 2] == '\n' {
            assert(t[n - 3] != '\n');
        }
    }
}

/// Folding is idempotent: text that is already folded comes back as it
/// was, so folding twice gives what folding once gives.
pub proof fn law_folding_is_idempotent(s: Seq<char>, t: Seq<char>)
    requires
        is_folded(t),
    ensures
        folded(t) == t,
        folded(folded(s)) == folded(s),
{
    lemma_fold_scan_of_folded(t, t.len() as int);
    assert(t.subrange(0, t.len() as int) =~= t);
    let f = folded(s);
    lemma_fold_scan(s, s.len() as int);
    lemma_fold_scan_of_folded(f, f.len() as int);
    assert(f.subrange(0, f.len() as int) =~= f);
}

/// Text on one line in folded form: no whitespace at either end, no
/// whitespace but spaces, and never two of them in a row.
pub open spec fn is_flat(t: Seq<char>) -> bool {
    &&& t.len() > 0 ==> !is_ws(t[0]) && !is_ws(t.last())
    &&& forall|i: int| 0 <= i < t.len() && is_ws(#[trigger] t[i]) ==> t[i] == ' '
    &&& forall|i: int, j: int| #![trigger t[i], t[j]] 0 <= i && j == i + 1 && j < t.len() && t[i] == ' ' ==> !is_ws(t[j])
}

proof fn lemma_flat_scan(s: Seq<char>, n: int)
    requires
        0 <= n <= s.len(),
    ensures
        is_flat(flat_scan(s, n).0),
        flat_scan(s, n).0.len() == 0 ==> !flat_scan(s, n).1,
    decreases n,
{
    if n > 0 {
        lemma_flat_scan(s, n - 1);
        let (out, space) = flat_scan(s, n - 1);
        let c = s[n - 1];
        if !is_ws(c) {
            let x = flat_scan(s, n).0;
            assert(x.last() == c);
            if space {
                assert(x == out.push(' ').push(c));
                assert forall|k: int| 0 <= k < x.len() implies #[trigger] x[k] == (if k < out.len() {
                    out[k]
                } else if k == out.len() {
                    ' '
                } else {
                    c
                }) by {}
            } else {
                assert(x == out.push(c));
            }
            assert forall|i: int, j: int| #![trigger x[i], x[j]] 0 <= i && j == i + 1 && j < x.len() && x[i] == ' '
                implies !is_ws(x[j]) by {
                if j < out.len() {
                    assert(out[i] == ' ');
                } else if i == out.len() - 1 {
                    assert(out[i] == out.last());
                }
            }
            assert forall|i: int| 0 <= i < x.len() && is_ws(#[trigger] x[i]) implies x[i] == ' ' by {
                if i < out.len() {
                    assert(is_ws(out[i]));
                }
            }
        }
    }
}

/// Flattened text is on one line in folded form, whatever came in: this
/// holds of the one-line text of every HTML fragment too.
pub proof fn law_flattening_leaves_flat_text(s: Seq<char>)
    ensures
        is_flat(flattened(s)),
        is_flat(html_line(s)),
{
    lemma_flat_scan(s, s.len() as int);
    let raw = html_raw_text(s, false);
    lemma_flat_scan(raw, raw.len() as int);
}

proof fn lemma_flat_scan_of_flat(t: Seq<char>, n: int)
    requires
        is_flat(t),
        0 <= n <= t.len(),
    ensures
        flat_scan(t, n) == (if n <= 0 {
            (Seq::<char>::empty(), false)
        } else if !is_ws(t[n - 1]) {
            (t.subrange(0, n), false)
        } else {
            (t.subrange(0, n - 1), true)
        }),
    decreases n,
{
    if n > 0 {
        lemma_flat_scan_of_flat(t, n - 1);
        let c = t[n - 1];
        if n >= 2 && t[n - 2] == ' ' {
            assert(!is_ws(t[n - 1]));
        }
        if is_ws(c) {
            assert(n >= 2) by {
                if n == 1 {
                    assert(t[0] == c);
                }
            }
        } else if n >= 2 && is_ws(t[n - 2]) {
            assert(t.subrange(0, n - 2).push(' ').push(c) =~= t.subrange(0, n));
        } else {
            assert(flat_scan(t, n - 1).0.push(c) =~= t.subrange(0, n));
        }
    }
}

/// Flattening is idempotent: text already on one line in folded form comes
/// back as it was, so flattening twice gives what flattening once gives.
pub proof fn law_flattening_is_idempotent(s: Seq<char>, t: Seq<char>)
    requires
        is_flat(t),
    ensures
        flattened(t) == t,
        flattened(flattened(s)) == flattened(s),
{
    lemma_flat_scan_of_flat(t, t.len() as int);
    assert(t.subrange(0, t.len() as int) =~= t);
    let f = flattened(s);
    lemma_flat_scan(s, s.len() as int);
    lemma_flat_scan_of_flat(f, f.len() as int);
    assert(f.subrange(0, f.len() as int) =~= f);
}

// ---------------------------------------------------------------------------
// Comment text and links
// ---------------------------------------------------------------------------

proof fn lemma_strip_backticks(line: Seq<char>)
    ensures
        !strip_backticks(line).contains('`'),
    decreases line.len(),
{
    if line.len() > 0 {
        lemma_strip_backticks(line.drop_last());
        let r = strip_backticks(line.drop_last());
        if line.last() != '`' {
            assert forall|k: int| 0 <= k < r.push(line.last()).len() implies r.push(line.last())[k] != '`' by {
                if k < r.len() {
                    assert(r.push(line.last())[k] == r[k]);
                }
            }
        }
    }
}

proof fn lemma_unfenced_lines(ls: Seq<Seq<char>>)
    ensures
        forall|i: int| 0 <= i < unfenced_lines(ls).len() ==> !(#[trigger] unfenced_lines(ls)[i]).contains('`'),
    decreases ls.len(),
{
    if ls.len() > 0 {
        lemma_unfenced_lines(ls.drop_last());
        lemma_strip_backticks(ls.last());
        let r = unfenced_lines(ls.drop_last());
        assert forall|i: int| 0 <= i < unfenced_lines(ls).len() implies !(#[trigger] unfenced_lines(ls)[i]).contains('`') by {
            if i < r.len() {
                assert(unfenced_lines(ls)[i] == r[i]);
            }
        }
    }
}

proof fn lemma_drop_blank_tail(ls: Seq<Seq<char>>)
    ensures
        drop_blank_tail(ls).len() <= ls.len(),
        forall|i: int| 0 <= i < drop_blank_tail(ls).len() ==> #[trigger] drop_blank_tail(ls)[i] == ls[i],
        drop_blank_tail(ls).len() > 0 ==> !is_blank(drop_blank_tail(ls).last()),
    decreases ls.len(),
{
    if ls.len() > 0 && is_blank(ls.last()) {
        lemma_drop_blank_tail(ls.drop_last());
    }
}

proof fn lemma_join_free_of(parts: Seq<Seq<char>>, sep: Seq<char>, c: char)
    requires
        !sep.contains(c),
        forall|i: int| 0 <= i < parts.len() ==> !(#[trigger] parts[i]).contains(c),
    ensures
        !join(parts, sep).contains(c),
    decreases parts.len(),
{
    if parts.len() > 1 {
        lemma_join_free_of(parts.drop_last(), sep, c);
        let a = join(parts.drop_last(), sep);
        let b = parts.last();
        assert(!b.contains(c));
        let x = a + sep + b;
        assert forall|k: int| 0 <= k < x.len() implies x[k] != c by {
            if k < a.len() {
                assert(x[k] == a[k]);
            } else if k < a.len() + sep.len() {
                assert(x[k] == sep[k - a.len()]);
            } else {
                assert(x[k] == b[k - a.len() - sep.len()]);
            }
        }
    } else if parts.len() == 1 {
        assert(!parts[0].contains(c));
    }
}

proof fn lemma_line_end_shift(x: Seq<char>, y: Seq<char>, j: int)
    requires
        0 <= j <= y.len(),
    ensures
        line_end(x + y, x.len() + j) == x.len() + line_end(y, j),
    decreases y.len() - j,
{
    if j < y.len() {
        assert((x + y)[x.len() + j] == y[j]);
        if y[j] != '\n' {
            lemma_line_end_shift(x, y, j + 1);
        }
    }
}

proof fn lemma_lines_from_shift(x: Seq<char>, y: Seq<char>, j: int)
    requires
        0 <= j <= y.len(),
    ensures
        lines_from(x + y, x.len() + j) == lines_from(y, j),
    decreases y.len() - j,
{
    if j < y.len() {
        let s = x + y;
        lemma_line_end_shift(x, y, j);
        lemma_line_end(y, j);
        let e = line_end(y, j);
        assert(s.subrange(x.len() + j, x.len() + e) =~= y.subrange(j, e));
        if e < y.len() {
            lemma_lines_from_shift(x, y, e + 1);
        } else {
            assert(s.subrange(x.len() + j, s.len() as int) =~= y.subrange(j, y.len() as int));
        }
    }
}

/// A line without line breaks and without a carriage return at its end.
pub open spec fn plain_line(l: Seq<char>) -> bool {
    !l.contains('\n') && !l.contains('\r')
}

proof fn lemma_line_end_plain(a: Seq<char>, i: int)
    requires
        !a.contains('\n'),
        0 <= i <= a.len(),
    ensures
        line_end(a, i) == a.len(),
    decreases a.len() - i,
{
    if i < a.len() {
        assert(a[i] != '\n');
        lemma_line_end_plain(a, i + 1);
    }
}

proof fn lemma_strip_cr_plain(a: Seq<char>)
    requires
        plain_line(a),
    ensures
        strip_cr(a) == a,
{
    if a.len() > 0 {
        assert(a.last() == a[a.len() - 1]);
    }
}

proof fn lemma_split_lines_cons(a: Seq<char>, b: Seq<char>)
    requires
        !a.contains('\n'),
    ensures
        split_lines(a + seq!['\n'] + b) == seq![strip_cr(a)] + split_lines(b),
{
    let s = a + seq!['\n'] + b;
    lemma_line_end_plain(a, 0);
    lemma_line_end_shift(Seq::<char>::empty(), s, 0);
    assert(s[a.len() as int] == '\n');
    assert forall|m: int| 0 <= m < a.len() implies s[m] != '\n' by {
        assert(s[m] == a[m]);
    }
    lemma_line_end(s, 0);
    if line_end(s, 0) < a.len() {
        assert(s[line_end(s, 0)] == '\n');
    }
    assert(line_end(s, 0) == a.len());
    assert(s.subrange(0, a.len() as int) =~= a);
    lemma_lines_from_shift(a + seq!['\n'], b, 0);
    assert(a + seq!['\n'] + b == s);
}

proof fn lemma_split_lines_single(a: Seq<char>)
    requires
        !a.contains('\n'),
        a.len() > 0,
    ensures
        split_lines(a) == seq![a],
{
    lemma_line_end_plain(a, 0);
    assert(a.subrange(0, a.len() as int) =~= a);
}

proof fn lemma_join_front(ls: Seq<Seq<char>>, sep: Seq<char>)
    requires
        ls.len() >= 2,
    ensures
        join(ls, sep) == ls[0] + sep + join(ls.drop_first(), sep),
    decreases ls.len(),
{
    if ls.len() == 2 {
        assert(ls.drop_last() =~= seq![ls[0]]);
        assert(ls.drop_first() =~= seq![ls[1]]);
        assert(join(ls.drop_last(), sep) == ls[0]);
        assert(join(ls.drop_first(), sep) == ls[1]);
    } else {
        lemma_join_front(ls.drop_last(), sep);
        assert(ls.drop_last().drop_first() =~= ls.drop_first().drop_last());
        assert(ls.drop_first().last() == ls.last());
        assert(ls.drop_last()[0] == ls[0]);
        assert(join(ls.drop_first(), sep) == join(ls.drop_first().drop_last(), sep) + sep + ls.drop_first().last());
    }
}

proof fn lemma_split_join(ls: Seq<Seq<char>>)
    requires
        forall|k: int| 0 <= k < ls.len() ==> plain_line(#[trigger] ls[k]),
        ls.len() > 0 ==> ls.last().len() > 0,
    ensures
        split_lines(join(ls, seq!['\n'])) == ls,
    decreases ls.len(),
{
    if ls.len() == 0 {
        assert(split_lines(Seq::<char>::empty()) =~= ls);
    } else if ls.len() == 1 {
        lemma_split_lines_single(ls[0]);
        assert(seq![ls[0]] =~= ls);
    } else {
        let rest = ls.drop_first();
        assert forall|k: int| 0 <= k < rest.len() implies plain_line(#[trigger] rest[k]) by {
            assert(rest[k] == ls[k + 1]);
        }
        assert(rest.last() == ls.last());
        lemma_split_join(rest);
        lemma_join_front(ls, seq!['\n']);
        lemma_split_lines_cons(ls[0], join(rest, seq!['\n']));
        lemma_strip_cr_plain(ls[0]);
        assert(seq![ls[0]] + rest =~= ls);
    }
}

proof fn lemma_lines_from_chars(s: Seq<char>, i: int)
    requires
        0 <= i,
    ensures
        forall|k: int, m: int| 0 <= k < lines_from(s, i).len() && 0 <= m < lines_from(s, i)[k].len() ==> {
            &&& #[trigger] lines_from(s, i)[k][m] != '\n'
            &&& s.contains(lines_from(s, i)[k][m])
        },
    decreases s.len() - i,
{
    if i < s.len() {
        let j = line_end(s, i);
        lemma_line_end(s, i);
        let ls = lines_from(s, i);
        if j < s.len() {
            lemma_lines_from_chars(s, j + 1);
            let rest = lines_from(s, j + 1);
            let first = strip_cr(s.subrange(i, j));
            assert forall|k: int, m: int| 0 <= k < ls.len() && 0 <= m < ls[k].len() implies {
                &&& #[trigger] ls[k][m] != '\n'
                &&& s.contains(ls[k][m])
            } by {
                if k == 0 {
                    assert(ls[0] == first);
                    assert(first[m] == s[i + m]);
                } else {
                    assert(ls[k] == rest[k - 1]);
                }
            }
        } else {
            assert forall|k: int, m: int| 0 <= k < ls.len() && 0 <= m < ls[k].len() implies {
                &&& #[trigger] ls[k][m] != '\n'
                &&& s.contains(ls[k][m])
            } by {
                assert(ls[k] == s.subrange(i, s.len() as int));
                assert(ls[k][m] == s[i + m]);
            }
        }
    }
}

proof fn lemma_strip_backticks_from(line: Seq<char>)
    ensures
        forall|k: int| 0 <= k < strip_backticks(line).len() ==> line.contains(#[trigger] strip_backticks(line)[k]),
        !line.contains('`') ==> strip_backticks(line) == line,
    decreases line.len(),
{
    if line.len() > 0 {
        lemma_strip_backticks_from(line.drop_last());
        let r = strip_backticks(line.drop_last());
        assert forall|k: int| 0 <= k < strip_backticks(line).len() implies line.contains(#[trigger] strip_backticks(line)[k]) by {
            if k < r.len() {
                assert(strip_backticks(line)[k] == r[k]);
                let q = choose|q: int| 0 <= q < line.drop_last().len() && line.drop_last()[q] == r[k];
                assert(line[q] == r[k]);
            } else {
                assert(strip_backticks(line)[k] == line.last());
                assert(line[line.len() - 1] == line.last());
            }
        }
        if !line.contains('`') {
            assert(line.last() == line[line.len() - 1]);
            assert(!line.drop_last().contains('`')) by {
                if line.drop_last().contains('`') {
                    let q = choose|q: int| 0 <= q < line.drop_last().len() && line.drop_last()[q] == '`';
                    assert(line[q] == '`');
                }
            }
            assert(r.push(line.last()) =~= line);
        }
    }
}

proof fn lemma_unfenced_plain(ls: Seq<Seq<char>>)
    requires
        forall|k: int| 0 <= k < ls.len() ==> !(#[trigger] ls[k]).contains('`'),
    ensures
        unfenced_lines(ls) == ls,
    decreases ls.len(),
{
    if ls.len() > 0 {
        lemma_unfenced_plain(ls.drop_last());
        let l = ls.last();
        assert(!l.contains('`'));
        lemma_strip_backticks_from(l);
        lemma_trim_start_suffix(l);
        if is_fence_line(l) {
            let t = trim_start(l);
            assert(t[0] == '`');
            assert(t[0] == l[l.len() - t.len()]);
        }
        assert(ls.drop_last().push(l) =~= ls);
    }
}

/// Cleaning is idempotent on text without carriage returns: cleaned text
/// comes back unchanged when it is cleaned again.
pub proof fn law_cleaning_is_idempotent(text: Seq<char>)
    requires
        !text.contains('\r'),
    ensures
        cleaned(cleaned(text)) == cleaned(text),
{
    let sl = split_lines(text);
    let us = unfenced_lines(sl);
    let ls = drop_blank_tail(us);
    lemma_lines_from_chars(text, 0);
    lemma_unfenced_lines(sl);
    lemma_drop_blank_tail(us);
    lemma_unfenced_elems(sl, text);
    assert forall|k: int| 0 <= k < ls.len() implies plain_line(#[trigger] ls[k]) by {
        assert(ls[k] == us[k]);
    }
    if ls.len() > 0 {
        lemma_trim_start_suffix(ls.last());
    }
    lemma_split_join(ls);
    assert forall|k: int| 0 <= k < ls.len() implies !(#[trigger] ls[k]).contains('`') by {
        assert(ls[k] == us[k]);
    }
    lemma_unfenced_plain(ls);
    assert(drop_blank_tail(ls) == ls);
}

proof fn lemma_unfenced_elems(sl: Seq<Seq<char>>, text: Seq<char>)
    requires
        !text.contains('\r'),
        forall|k: int, m: int| 0 <= k < sl.len() && 0 <= m < sl[k].len() ==> {
            &&& #[trigger] sl[k][m] != '\n'
            &&& text.contains(sl[k][m])
        },
    ensures
        forall|k: int| 0 <= k < unfenced_lines(sl).len() ==> plain_line(#[trigger] unfenced_lines(sl)[k]),
    decreases sl.len(),
{
    if sl.len() > 0 {
        let init = sl.drop_last();
        assert forall|k: int, m: int| 0 <= k < init.len() && 0 <= m < init[k].len() implies {
            &&& #[trigger] init[k][m] != '\n'
            &&& text.contains(init[k][m])
        } by {
            assert(init[k] == sl[k]);
        }
        lemma_unfenced_elems(init, text);
        let l = sl.last();
        lemma_strip_backticks_from(l);
        let b = strip_backticks(l);
        let r = unfenced_lines(init);
        assert(plain_line(b)) by {
            if b.contains('\n') || b.contains('\r') {
                let q = choose|q: int| 0 <= q < b.len() && (b[q] == '\n' || b[q] == '\r');
                assert(l.contains(b[q]));
                let p = choose|p: int| 0 <= p < l.len() && l[p] == b[q];
                assert(sl[sl.len() - 1][p] == l[p]);
            }
        }
        assert forall|k: int| 0 <= k < unfenced_lines(sl).len() implies plain_line(#[trigger] unfenced_lines(sl)[k]) by {
            if k < r.len() {
                assert(unfenced_lines(sl)[k] == r[k]);
            }
        }
    }
}

proof fn lemma_split_join_last(ls: Seq<Seq<char>>)
    requires
        forall|k: int| 0 <= k < ls.len() ==> !(#[trigger] ls[k]).contains('\n'),
        ls.len() > 0,
        ls.last().len() > 0,
    ensures
        split_lines(join(ls, seq!['\n'])).len() == ls.len(),
        split_lines(join(ls, seq!['\n'])).last() == ls.last(),
    decreases ls.len(),
{
    if ls.len() == 1 {
        lemma_split_lines_single(ls[0]);
    } else {
        let rest = ls.drop_first();
        assert forall|k: int| 0 <= k < rest.len() implies !(#[trigger] rest[k]).contains('\n') by {
            assert(rest[k] == ls[k + 1]);
        }
        assert(rest.last() == ls.last());
        lemma_split_join_last(rest);
        lemma_join_front(ls, seq!['\n']);
        lemma_split_lines_cons(ls[0], join(rest, seq!['\n']));
    }
}

proof fn lemma_unfenced_no_newline(sl: Seq<Seq<char>>)
    requires
        forall|k: int| 0 <= k < sl.len() ==> !(#[trigger] sl[k]).contains('\n'),
    ensures
        forall|k: int| 0 <= k < unfenced_lines(sl).len() ==> !(#[trigger] unfenced_lines(sl)[k]).contains('\n'),
    decreases sl.len(),
{
    if sl.len() > 0 {
        let init = sl.drop_last();
        assert forall|k: int| 0 <= k < init.len() implies !(#[trigger] init[k]).contains('\n') by {
            assert(init[k] == sl[k]);
        }
        lemma_unfenced_no_newline(init);
        let l = sl.last();
        lemma_strip_backticks_from(l);
        let b = strip_backticks(l);
        assert(!l.contains('\n'));
        assert(!b.contains('\n')) by {
            if b.contains('\n') {
                let q = choose|q: int| 0 <= q < b.len() && b[q] == '\n';
                assert(l.contains(b[q]));
            }
        }
        let r = unfenced_lines(init);
        assert forall|k: int| 0 <= k < unfenced_lines(sl).len() implies !(#[trigger] unfenced_lines(sl)[k]).contains('\n') by {
            if k < r.len() {
                assert(unfenced_lines(sl)[k] == r[k]);
            }
        }
    }
}

/// Cleaned comment text is empty or ends with a line that is not blank.
pub proof fn law_cleaned_text_ends_with_a_line(text: Seq<char>)
    ensures
        cleaned(text).len() == 0 || (split_lines(cleaned(text)).len() > 0 && !is_blank(split_lines(cleaned(text)).last())),
{
    let sl = split_lines(text);
    let us = unfenced_lines(sl);
    let ls = drop_blank_tail(us);
    lemma_lines_from_chars(text, 0);
    assert forall|k: int| 0 <= k < sl.len() implies !(#[trigger] sl[k]).contains('\n') by {
        if sl[k].contains('\n') {
            let m = choose|m: int| 0 <= m < sl[k].len() && sl[k][m] == '\n';
            assert(sl[k][m] != '\n');
        }
    }
    lemma_unfenced_no_newline(sl);
    lemma_drop_blank_tail(us);
    if ls.len() > 0 {
        assert forall|k: int| 0 <= k < ls.len() implies !(#[trigger] ls[k]).contains('\n') by {
            assert(ls[k] == us[k]);
        }
        lemma_trim_start_suffix(ls.last());
        lemma_split_join_last(ls);
    } else {
        assert(cleaned(text) =~= Seq::<char>::empty());
    }
}

/// Cleaned comment text holds no backtick, and the lines it is made of do
/// not end with a blank line.
pub proof fn law_cleaned_text_has_no_backticks(text: Seq<char>)
    ensures
        !cleaned(text).contains('`'),
        ({
            let ls = drop_blank_tail(unfenced_lines(split_lines(text)));
            ls.len() > 0 ==> !is_blank(ls.last())
        }),
{
    let us = unfenced_lines(split_lines(text));
    lemma_unfenced_lines(split_lines(text));
    lemma_drop_blank_tail(us);
    let ls = drop_blank_tail(us);
    assert forall|i: int| 0 <= i < ls.len() implies !(#[trigger] ls[i]).contains('`') by {
        assert(ls[i] == us[i]);
    }
    lemma_join_free_of(ls, seq!['\n'], '`');
}

proof fn lemma_trim_opening(t: Seq<char>)
    ensures
        exists|a: int| 0 <= a <= t.len() && trim_opening(t) == #[trigger] t.subrange(a, t.len() as int),
    decreases t.len(),
{
    if t.len() > 0 && is_opening_mark(t[0]) {
        lemma_trim_opening(t.drop_first());
        let a = choose|a: int| 0 <= a <= t.drop_first().len() && trim_opening(t.drop_first()) == #[trigger] t.drop_first().subrange(a, t.drop_first().len() as int);
        assert(t.drop_first().subrange(a, t.drop_first().len() as int) =~= t.subrange(a + 1, t.len() as int));
    } else {
        assert(t.subrange(0, t.len() as int) =~= t);
    }
}

proof fn lemma_trim_closing(t: Seq<char>)
    ensures
        exists|b: int| 0 <= b <= t.len() && trim_closing(t) == #[trigger] t.subrange(0, b),
    decreases t.len(),
{
    if t.len() > 0 && is_closing_mark(t.last()) {
        lemma_trim_closing(t.drop_last());
        let b = choose|b: int| 0 <= b <= t.drop_last().len() && trim_closing(t.drop_last()) == #[trigger] t.drop_last().subrange(0, b);
        assert(t.drop_last().subrange(0, b) =~= t.subrange(0, b));
    } else {
        assert(t.subrange(0, t.len() as int) =~= t);
    }
}

proof fn lemma_words_from(s: Seq<char>, i: int)
    requires
        0 <= i,
    ensures
        forall|k: int, m: int| 0 <= k < words_from(s, i).len() && 0 <= m < words_from(s, i)[k].len()
            ==> !is_ws(#[trigger] words_from(s, i)[k][m]),
    decreases s.len() - i,
{
    if i < s.len() {
        if is_ws(s[i]) {
            lemma_words_from(s, i + 1);
            assert(words_from(s, i) == words_from(s, i + 1));
        } else {
            let j = word_end(s, i);
            lemma_word_end(s, i);
            lemma_words_from(s, j);
            let w = words_from(s, i);
            let rest = words_from(s, j);
            assert forall|k: int, m: int| 0 <= k < w.len() && 0 <= m < w[k].len() implies !is_ws(#[trigger] w[k][m]) by {
                if k == 0 {
                    assert(w[0] == s.subrange(i, j));
                    assert(w[0][m] == s[i + m]);
                } else {
                    assert(w[k] == rest[k - 1]);
                }
            }
        }
    }
}

pub proof fn lemma_trim_closing_end(t: Seq<char>)
    ensures
        trim_closing(t).len() > 0 ==> !is_closing_mark(trim_closing(t).last()),
    decreases t.len(),
{
    if t.len() > 0 && is_closing_mark(t.last()) {
        lemma_trim_closing_end(t.drop_last());
    }
}

proof fn lemma_first_link(ws: Seq<Seq<char>>)
    requires
        forall|k: int, m: int| 0 <= k < ws.len() && 0 <= m < ws[k].len() ==> !is_ws(#[trigger] ws[k][m]),
    ensures
        match first_link(ws) {
            Some(u) => is_web_link(u) && !is_closing_mark(u.last()) && (forall|m: int| 0 <= m < u.len() ==> !is_ws(#[trigger] u[m]))
                && exists|k: int| 0 <= k < ws.len() && u == link_candidate(#[trigger] ws[k]),
            None => forall|k: int| 0 <= k < ws.len() ==> !is_web_link(link_candidate(#[trigger] ws[k])),
        },
    decreases ws.len(),
{
    if ws.len() > 0 {
        if is_web_link(link_candidate(ws[0])) {
            let w = ws[0];
            lemma_trim_opening(w);
            let a = choose|a: int| 0 <= a <= w.len() && trim_opening(w) == #[trigger] w.subrange(a, w.len() as int);
            let o = trim_opening(w);
            lemma_trim_closing(o);
            let b = choose|b: int| 0 <= b <= o.len() && trim_closing(o) == #[trigger] o.subrange(0, b);
            let u = link_candidate(w);
            lemma_trim_closing_end(o);
            assert forall|m: int| 0 <= m < u.len() implies !is_ws(#[trigger] u[m]) by {
                assert(u[m] == w[a + m]);
                assert(!is_ws(ws[0][a + m]));
            }
        } else {
            let rest = ws.drop_first();
            assert forall|k: int, m: int| 0 <= k < rest.len() && 0 <= m < rest[k].len() implies !is_ws(#[trigger] rest[k][m]) by {
                assert(rest[k] == ws[k + 1]);
            }
            lemma_first_link(rest);
            match first_link(rest) {
                Some(u) => {
                    let k = choose|k: int| 0 <= k < rest.len() && u == link_candidate(#[trigger] rest[k]);
                    assert(rest[k] == ws[k + 1]);
                },
                None => {
                    assert forall|k: int| 0 <= k < ws.len() implies !is_web_link(link_candidate(#[trigger] ws[k])) by {
                        if k > 0 {
                            assert(ws[k] == rest[k - 1]);
                        }
                    }
                },
            }
        }
    }
}

/// The link found in a text is a web link without whitespace that does not
/// end in closing punctuation, cut from one of the text's words; when none
/// is found, no word of the text is a web link once its punctuation is
/// removed.
pub proof fn law_first_url_is_a_web_link(text: Seq<char>)
    ensures
        match first_url(text) {
            Some(u) => is_web_link(u) && !is_closing_mark(u.last()) && (forall|m: int| 0 <= m < u.len() ==> !is_ws(#[trigger] u[m]))
                && exists|k: int| 0 <= k < words(text).len() && u == link_candidate(#[trigger] words(text)[k]),
            None => forall|k: int| 0 <= k < words(text).len() ==> !is_web_link(link_candidate(#[trigger] words(text)[k])),
        },
{
    lemma_words_from(text, 0);
    lemma_first_link(words(text));
}

// ---------------------------------------------------------------------------
// Discussion pages
// ---------------------------------------------------------------------------

/// Every comment read from a discussion page has text, holds no backtick,
/// and links to the first web link of its text.
pub proof fn law_page_comments_have_text(html: Seq<char>)
    ensures
        forall|i: int| 0 <= i < page_comments(html).len() ==> {
            let c = #[trigger] page_comments(html)[i];
            &&& c.text.len() > 0
            &&& !c.text.contains('`')
            &&& c.url == first_url(c.text)
        },
    decreases html.len(),
{
    match row_bounds(html) {
        None => {},
        Some((a, b)) => {
            lemma_row_bounds(html);
            let tail = html.subrange(b, html.len() as int);
            law_page_comments_have_text(tail);
            let rest = page_comments(tail);
            match row_comment(html.subrange(a, b)) {
                Some(c) => {
                    match commtext(html.subrange(a, b)) {
                        Some(h) => {
                            law_cleaned_text_has_no_backticks(html_text(expanded_links(h)));
                        },
                        None => {},
                    }
                    let all = seq![c] + rest;
                    assert forall|i: int| 0 <= i < all.len() implies {
                        let d = #[trigger] all[i];
                        &&& d.text.len() > 0
                        &&& !d.text.contains('`')
                        &&& d.url == first_url(d.text)
                    } by {
                        if i > 0 {
                            assert(all[i] == rest[i - 1]);
                        }
                    }
                },
                None => {},
            }
        },
    }
}

// ---------------------------------------------------------------------------
// Hyperlinks on the screen
// ---------------------------------------------------------------------------

proof fn lemma_runs_from(cells: Seq<CellView>, x: int)
    requires
        0 <= x <= cells.len(),
        cells.len() <= usize::MAX,
    ensures
        forall|k: int| 0 <= k < runs_from(cells, x).len() ==> {
            let r = #[trigger] runs_from(cells, x)[k];
            &&& x <= r.0 < r.1 <= cells.len()
            &&& forall|m: int| r.0 <= m < r.1 ==> #[trigger] cells[m].1
            &&& r.2 == cells_text(cells, r.0 as int, r.1 as int)
            &&& osc8_safe(r.2)
        },
        forall|k: int| 0 <= k < runs_from(cells, x).len() - 1 ==> (#[trigger] runs_from(cells, x)[k]).1 < runs_from(cells, x)[k + 1].0,
    decreases cells.len() - x,
{
    if x < cells.len() {
        if !cells[x].1 {
            lemma_runs_from(cells, x + 1);
            assert(runs_from(cells, x) == runs_from(cells, x + 1));
        } else {
            let e = run_end(cells, x);
            lemma_run_end(cells, x);
            lemma_runs_from(cells, e);
            let rest = runs_from(cells, e);
            let t = cells_text(cells, x, e);
            if osc8_safe(t) {
                let all = seq![(x as usize, e as usize, t)] + rest;
                assert(runs_from(cells, x) == all);
                assert forall|k: int| 0 <= k < all.len() implies {
                    let r = #[trigger] all[k];
                    &&& x <= r.0 < r.1 <= cells.len()
                    &&& forall|m: int| r.0 <= m < r.1 ==> #[trigger] cells[m].1
                    &&& r.2 == cells_text(cells, r.0 as int, r.1 as int)
                    &&& osc8_safe(r.2)
                } by {
                    if k > 0 {
                        assert(all[k] == rest[k - 1]);
                    }
                }
                assert forall|k: int| 0 <= k < all.len() - 1 implies (#[trigger] all[k]).1 < all[k + 1].0 by {
                    assert(all[k + 1] == rest[k]);
                    if k > 0 {
                        assert(all[k] == rest[k - 1]);
                    } else if e < cells.len() {
                        assert(!cells[e].1);
                        assert(rest[0].0 != e);
                    }
                }
            } else {
                assert(runs_from(cells, x) == rest);
            }
        }
    }
}

/// The hyperlinks of a screen row are runs of link cells, left to right and
/// apart from each other, each inside the row and each showing text that a
/// terminal can carry as a link target.
pub proof fn law_hyperlink_runs_are_link_cells(cells: Seq<CellView>)
    requires
        cells.len() <= usize::MAX,
    ensures
        forall|k: int| 0 <= k < runs_from(cells, 0).len() ==> {
            let r = #[trigger] runs_from(cells, 0)[k];
            &&& r.0 < r.1 <= cells.len()
            &&& forall|m: int| r.0 <= m < r.1 ==> #[trigger] cells[m].1
            &&& r.2 == cells_text(cells, r.0 as int, r.1 as int)
            &&& osc8_safe(r.2)
        },
        forall|k: int| 0 <= k < runs_from(cells, 0).len() - 1 ==> (#[trigger] runs_from(cells, 0)[k]).1 < runs_from(cells, 0)[k + 1].0,
{
    lemma_runs_from(cells, 0);
}

// ---------------------------------------------------------------------------
// Collapsing
// ---------------------------------------------------------------------------

/// The position of the comment shown after the one at `x`: the next one,
/// or, when `x` is collapsed and has replies, the one after its last reply.
pub open spec fn next_shown(cs: Seq<Comment>, collapsed: Set<usize>, x: usize) -> int {
    let h = descendants(cs, x as int);
    x + if h > 0 && collapsed.contains(x) {
        h + 1
    } else {
        1
    }
}

proof fn lemma_visible_from(cs: Seq<Comment>, collapsed: Set<usize>, i: int)
    requires
        0 <= i <= cs.len(),
        cs.len() <= usize::MAX,
    ensures
        forall|k: int| 0 <= k < visible_from(cs, collapsed, i).len() ==> i <= #[trigger] visible_from(cs, collapsed, i)[k] < cs.len(),
        forall|k: int| 0 <= k < visible_from(cs, collapsed, i).len() - 1 ==> visible_from(cs, collapsed, i)[k + 1]
            == next_shown(cs, collapsed, #[trigger] visible_from(cs, collapsed, i)[k]),
    decreases cs.len() - i,
{
    if i < cs.len() {
        lemma_deeper_run(cs, i + 1, cs[i].depth);
        let h = descendants(cs, i);
        let next = if h > 0 && collapsed.contains(i as usize) {
            i + h + 1
        } else {
            i + 1
        };
        lemma_visible_from(cs, collapsed, next);
        let v = visible_from(cs, collapsed, i);
        let w = visible_from(cs, collapsed, next);
        assert(v == seq![i as usize] + w);
        assert forall|k: int| 0 <= k < v.len() implies i <= #[trigger] v[k] < cs.len() by {
            if k > 0 {
                assert(v[k] == w[k - 1]);
            }
        }
        assert forall|k: int| 0 <= k < v.len() - 1 implies v[k + 1] == next_shown(cs, collapsed, #[trigger] v[k]) by {
            if k == 0 {
                assert(v[1] == w[0]);
            } else {
                assert(v[k] == w[k - 1]);
                assert(v[k + 1] == w[k]);
            }
        }
    }
}

/// The comments shown come in thread order and each step skips exactly the
/// replies of a collapsed comment: shown positions are valid, and after a
/// shown comment comes the next comment, or, when it is collapsed and has
/// replies, the comment after its last reply. In particular no reply of a
/// shown collapsed comment is shown.
pub proof fn law_collapsed_replies_are_hidden(cs: Seq<Comment>, collapsed: Set<usize>)
    requires
        cs.len() <= usize::MAX,
    ensures
        forall|k: int| 0 <= k < visible(cs, collapsed).len() ==> #[trigger] visible(cs, collapsed)[k] < cs.len(),
        forall|k: int| 0 <= k < visible(cs, collapsed).len() - 1 ==> visible(cs, collapsed)[k + 1]
            == next_shown(cs, collapsed, #[trigger] visible(cs, collapsed)[k]),
        forall|k: int, j: int| 0 <= k < j < visible(cs, collapsed).len() ==> #[trigger] visible(cs, collapsed)[k] < #[trigger] visible(cs, collapsed)[j],
        forall|k: int, r: int| 0 <= k < visible(cs, collapsed).len() && #[trigger] collapsed.contains(visible(cs, collapsed)[k])
            && visible(cs, collapsed)[k] < r <= visible(cs, collapsed)[k] + descendants(cs, visible(cs, collapsed)[k] as int)
            ==> !#[trigger] visible(cs, collapsed).contains(r as usize),
{
    lemma_visible_from(cs, collapsed, 0);
    let v = visible(cs, collapsed);
    assert forall|k: int, j: int| 0 <= k < j < v.len() implies #[trigger] v[k] < #[trigger] v[j] by {
        lemma_increasing(cs, collapsed, v, k, j);
    }
    assert forall|k: int, r: int| 0 <= k < v.len() && #[trigger] collapsed.contains(v[k])
        && v[k] < r <= v[k] + descendants(cs, v[k] as int) implies !#[trigger] v.contains(r as usize) by {
        lemma_deeper_run(cs, v[k] + 1, cs[v[k] as int].depth);
        assert(r < cs.len());
        if v.contains(r as usize) {
            let j = choose|j: int| 0 <= j < v.len() && v[j] == r as usize;
            if j > k {
                assert(v[k + 1] == next_shown(cs, collapsed, v[k]));
                lemma_increasing_le(cs, collapsed, v, k + 1, j);
            } else if j < k {
                lemma_increasing(cs, collapsed, v, j, k);
            }
        }
    }
}

proof fn lemma_increasing(cs: Seq<Comment>, collapsed: Set<usize>, v: Seq<usize>, k: int, j: int)
    requires
        v == visible(cs, collapsed),
        cs.len() <= usize::MAX,
        0 <= k < j < v.len(),
        forall|m: int| 0 <= m < v.len() - 1 ==> v[m + 1] == next_shown(cs, collapsed, #[trigger] v[m]),
    ensures
        v[k] < v[j],
    decreases j - k,
{
    assert(v[k + 1] > v[k]);
    if j > k + 1 {
        lemma_increasing(cs, collapsed, v, k + 1, j);
    }
}

proof fn lemma_increasing_le(cs: Seq<Comment>, collapsed: Set<usize>, v: Seq<usize>, k: int, j: int)
    requires
        v == visible(cs, collapsed),
        cs.len() <= usize::MAX,
        0 <= k <= j < v.len(),
        forall|m: int| 0 <= m < v.len() - 1 ==> v[m + 1] == next_shown(cs, collapsed, #[trigger] v[m]),
    ensures
        v[k] <= v[j],
{
    if k < j {
        lemma_increasing(cs, collapsed, v, k, j);
    }
}


/// Comment `j` is collapsed and `i` is one of its replies (at any depth).
pub open spec fn hides(cs: Seq<Comment>, collapsed: Set<usize>, j: int, i: int) -> bool {
    0 <= j < i && collapsed.contains(j as usize) && i <= j + descendants(cs, j)
}

proof fn lemma_deeper_run_stops(cs: Seq<Comment>, i: int, d: usize, m: int)
    requires
        0 <= i <= m < cs.len(),
        cs[m].depth <= d,
    ensures
        i + deeper_run(cs, i, d) <= m,
    decreases cs.len() - i,
{
    if i < cs.len() && cs[i].depth > d {
        lemma_deeper_run_stops(cs, i + 1, d, m);
    }
}

/// Replies nest: the replies of a reply of `p` are replies of `p`.
proof fn lemma_replies_nest(cs: Seq<Comment>, p: int, j: int)
    requires
        0 <= p < j <= p + descendants(cs, p),
    ensures
        j + descendants(cs, j) <= p + descendants(cs, p),
{
    let h = descendants(cs, p);
    lemma_deeper_run(cs, p + 1, cs[p].depth);
    lemma_deeper_run(cs, j + 1, cs[j].depth);
    assert(cs[j].depth > cs[p].depth);
    if p + 1 + h < cs.len() {
        lemma_deeper_run_stops(cs, j + 1, cs[j].depth, p + 1 + h);
    }
}

proof fn lemma_visible_from_iff(cs: Seq<Comment>, collapsed: Set<usize>, p: int, i: int)
    requires
        0 <= p <= i < cs.len(),
        cs.len() <= usize::MAX,
    ensures
        visible_from(cs, collapsed, p).contains(i as usize) <==> !exists|j: int| p <= j && #[trigger] hides(cs, collapsed, j, i),
    decreases i - p,
{
    let h = descendants(cs, p);
    lemma_deeper_run(cs, p + 1, cs[p].depth);
    let skip = h > 0 && collapsed.contains(p as usize);
    let next = if skip { p + h + 1 } else { p + 1 };
    let v = visible_from(cs, collapsed, p);
    let w = visible_from(cs, collapsed, next);
    assert(v == seq![p as usize] + w);
    if p == i {
        assert(v[0] == i as usize);
        assert forall|j: int| p <= j implies !#[trigger] hides(cs, collapsed, j, i) by {}
    } else if skip && i <= p + h {
        assert(hides(cs, collapsed, p, i));
        lemma_visible_from(cs, collapsed, next);
        if v.contains(i as usize) {
            let k = choose|k: int| 0 <= k < v.len() && v[k] == i as usize;
            if k > 0 {
                assert(v[k] == w[k - 1]);
            }
        }
    } else {
        lemma_visible_from_iff(cs, collapsed, next, i);
        if v.contains(i as usize) {
            let k = choose|k: int| 0 <= k < v.len() && v[k] == i as usize;
            assert(k > 0);
            assert(w[k - 1] == i as usize);
        }
        if w.contains(i as usize) {
            let k = choose|k: int| 0 <= k < w.len() && w[k] == i as usize;
            assert(v[k + 1] == i as usize);
        }
        assert forall|j: int| p <= j < next implies !#[trigger] hides(cs, collapsed, j, i) by {
            if j > p {
                lemma_replies_nest(cs, p, j);
            }
        }
        if exists|j: int| p <= j && #[trigger] hides(cs, collapsed, j, i) {
            let j = choose|j: int| p <= j && #[trigger] hides(cs, collapsed, j, i);
            assert(next <= j);
        }
    }
}

/// A comment is shown exactly when it is not a reply (at any depth) of a
/// collapsed comment: collapsing hides the replies, and nothing else.
pub proof fn law_shown_iff_not_under_collapsed(cs: Seq<Comment>, collapsed: Set<usize>, i: int)
    requires
        0 <= i < cs.len(),
        cs.len() <= usize::MAX,
    ensures
        visible(cs, collapsed).contains(i as usize) <==> !exists|j: int| #[trigger] hides(cs, collapsed, j, i),
{
    lemma_visible_from_iff(cs, collapsed, 0, i);
}

// ---------------------------------------------------------------------------
// Who owns the lines of a thread
// ---------------------------------------------------------------------------

/// A comment shows at least its author line: it has an author name, or it
/// is collapsed and says so.
pub open spec fn has_author_line(cs: Seq<Comment>, collapsed: Set<usize>, j: usize) -> bool {
    cs[j as int].author@.len() > 0 || collapsed.contains(j)
}

proof fn lemma_wrapped_owned(prefix: Seq<char>, text: Seq<char>, width: int, owner: Option<usize>)
    ensures
        forall|k: int| 0 <= k < wrapped(prefix, text, width, owner).len() ==> (#[trigger] wrapped(prefix, text, width, owner)[k]).1 == owner,
        text.len() > 0 ==> wrapped(prefix, text, width, owner).len() > 0,
{
    let ls = split_lines(text);
    let a = room(prefix, width);
    if text.len() > 0 {
        assert(ls.len() > 0);
        lemma_lines_pieces_first(ls, a);
        let r = trim_end(ls[0]);
        if r.len() > 0 {
            assert(wrap_pieces(r, a).len() > 0);
        }
        assert(line_pieces(ls[0], a).len() > 0);
    }
}

proof fn lemma_separator(last: Option<usize>, depth: usize)
    ensures
        forall|k: int| 0 <= k < separator(last, depth).len() ==> (#[trigger] separator(last, depth)[k]).1 is None,
{
}

/// The lines of the comments shown from position `i` on: every line is a
/// separator or belongs to one of those comments; each of them that has an
/// author line owns a line; and the lines of a comment come in one block.
proof fn lemma_layout_owners(
    cs: Seq<Comment>,
    collapsed: Set<usize>,
    selected: Option<usize>,
    width: int,
    i: int,
    last: Option<usize>,
)
    requires
        0 <= i,
        cs.len() <= usize::MAX,
    ensures
        ({
            let l = layout_from(cs, collapsed, selected, width, i, last);
            let v = visible_from(cs, collapsed, i);
            &&& forall|k: int| 0 <= k < l.len() && (#[trigger] l[k]).1 is Some ==> v.contains(l[k].1->0)
            &&& forall|p: int| 0 <= p < v.len() && has_author_line(cs, collapsed, #[trigger] v[p])
                ==> exists|k: int| 0 <= k < l.len() && (#[trigger] l[k]).1 == Some(v[p])
            &&& forall|a: int, m: int, b: int| 0 <= a < m < b < l.len() && (#[trigger] l[a]).1 is Some
                && (#[trigger] l[b]).1 == l[a].1 ==> (#[trigger] l[m]).1 == l[a].1
            &&& forall|a: int, b: int| 0 <= a < b < l.len() && (#[trigger] l[a]).1 is Some
                && (#[trigger] l[b]).1 is Some ==> l[a].1->0 <= l[b].1->0
        }),
    decreases cs.len() - i,
{
    let l = layout_from(cs, collapsed, selected, width, i, last);
    let v = visible_from(cs, collapsed, i);
    if i < cs.len() {
        let c = cs[i];
        let h = descendants(cs, i);
        lemma_deeper_run(cs, i + 1, c.depth);
        let is_col = collapsed.contains(i as usize);
        let next = if is_col {
            i + h + 1
        } else {
            i + 1
        };
        let vnext = if h > 0 && is_col {
            i + h + 1
        } else {
            i + 1
        };
        let starts = match last {
            None => true,
            Some(d) => d < c.depth,
        };
        let (ap, tp) = prefix_for(c.depth as nat, starts);
        let author_prefix = if selected == Some(i as usize) {
            selected_prefix(c.depth as nat)
        } else {
            ap
        };
        let body = if is_col {
            collapsed_note(h)
        } else {
            cleaned(c.text@)
        };
        let label = author_label(c.author@, h, is_col);
        let sep = separator(last, c.depth);
        let a_lines = wrapped(author_prefix, label, width, Some(i as usize));
        let b_lines = wrapped(tp, body, width, Some(i as usize));
        let r = layout_from(cs, collapsed, selected, width, next, Some(c.depth));
        assert(l == sep + a_lines + b_lines + r);
        lemma_layout_owners(cs, collapsed, selected, width, next, Some(c.depth));
        lemma_visible_from(cs, collapsed, vnext);
        let vr = visible_from(cs, collapsed, vnext);
        assert(v == seq![i as usize] + vr);
        // A collapsed comment without replies skips only itself either way.
        assert(visible_from(cs, collapsed, next) == vr);
        lemma_separator(last, c.depth);
        lemma_wrapped_owned(author_prefix, label, width, Some(i as usize));
        lemma_wrapped_owned(tp, body, width, Some(i as usize));
        let s0 = sep.len() as int;
        let s1 = s0 + a_lines.len();
        let s2 = s1 + b_lines.len();
        assert forall|k: int| 0 <= k < l.len() implies #[trigger] l[k] == (if k < s0 {
            sep[k]
        } else if k < s1 {
            a_lines[k - s0]
        } else if k < s2 {
            b_lines[k - s1]
        } else {
            r[k - s2]
        }) by {}
        assert forall|k: int| 0 <= k < l.len() && (#[trigger] l[k]).1 is Some implies v.contains(l[k].1->0) by {
            if k < s0 {
                assert(sep[k].1 is None);
            } else if k < s2 {
                if k < s1 {
                    assert(a_lines[k - s0].1 == Some(i as usize));
                } else {
                    assert(b_lines[k - s1].1 == Some(i as usize));
                }
                assert(v[0] == i as usize);
            } else {
                assert(l[k] == r[k - s2]);
                let j = choose|j: int| 0 <= j < vr.len() && vr[j] == r[k - s2].1->0;
                assert(v[j + 1] == vr[j]);
            }
        }
        if has_author_line(cs, collapsed, i as usize) {
            if !is_col {
                assert(label == c.author@);
            } else if h > 0 {
                assert(label.len() >= c.author@.len() + 2) by {
                    reveal_strlit(" [+");
                }
            } else {
                assert(label.len() > c.author@.len()) by {
                    reveal_strlit(" [collapsed]");
                }
            }
            assert(a_lines.len() > 0);
            assert(l[s0].1 == Some(i as usize));
        }
        assert forall|p: int| 0 <= p < v.len() && has_author_line(cs, collapsed, #[trigger] v[p])
            implies exists|k: int| 0 <= k < l.len() && (#[trigger] l[k]).1 == Some(v[p]) by {
            if p == 0 {
                assert(v[0] == i as usize);
                assert(l[s0].1 == Some(v[p]));
            } else {
                assert(v[p] == vr[p - 1]);
                assert(has_author_line(cs, collapsed, vr[p - 1]));
                let k = choose|k: int| 0 <= k < r.len() && (#[trigger] r[k]).1 == Some(vr[p - 1]);
                assert(l[k + s2] == r[k]);
            }
        }
        assert forall|a: int, m: int, b: int| 0 <= a < m < b < l.len() && (#[trigger] l[a]).1 is Some
            && (#[trigger] l[b]).1 == l[a].1 implies (#[trigger] l[m]).1 == l[a].1 by {
            if a < s0 {
                assert(sep[a].1 is None);
            } else if a < s2 {
                if a < s1 {
                    assert(a_lines[a - s0].1 == Some(i as usize));
                } else {
                    assert(b_lines[a - s1].1 == Some(i as usize));
                }
                if b >= s2 {
                    assert(l[b] == r[b - s2]);
                    let j = choose|j: int| 0 <= j < vr.len() && vr[j] == r[b - s2].1->0;
                    assert(vr[j] >= vnext);
                    assert(false);
                }
                if m < s1 {
                    assert(a_lines[m - s0].1 == Some(i as usize));
                } else {
                    assert(b_lines[m - s1].1 == Some(i as usize));
                }
            } else {
                assert(l[a] == r[a - s2]);
                assert(l[b] == r[b - s2]);
                assert(l[m] == r[m - s2]);
                assert(r[a - s2].1 is Some && r[b - s2].1 == r[a - s2].1);
            }
        }
        assert forall|a: int, b: int| 0 <= a < b < l.len() && (#[trigger] l[a]).1 is Some
            && (#[trigger] l[b]).1 is Some implies l[a].1->0 <= l[b].1->0 by {
            if a < s0 {
                assert(sep[a].1 is None);
            } else if b < s0 {
                assert(sep[b].1 is None);
            } else if b < s2 {
                if a < s1 {
                    assert(a_lines[a - s0].1 == Some(i as usize));
                } else {
                    assert(b_lines[a - s1].1 == Some(i as usize));
                }
                if b < s1 {
                    assert(a_lines[b - s0].1 == Some(i as usize));
                } else {
                    assert(b_lines[b - s1].1 == Some(i as usize));
                }
            } else if a < s2 {
                if a < s1 {
                    assert(a_lines[a - s0].1 == Some(i as usize));
                } else {
                    assert(b_lines[a - s1].1 == Some(i as usize));
                }
                assert(l[b] == r[b - s2]);
                let j = choose|j: int| 0 <= j < vr.len() && vr[j] == r[b - s2].1->0;
                assert(vr[j] >= vnext);
            } else {
                assert(l[a] == r[a - s2]);
                assert(l[b] == r[b - s2]);
            }
        }
    }
}

proof fn lemma_layout_gaps(cs: Seq<Comment>, collapsed: Set<usize>, selected: Option<usize>, width: int, i: int, last: Option<usize>)
    requires
        0 <= i,
        forall|j: int| 0 <= j < cs.len() ==> (#[trigger] cs[j]).author@.len() > 0,
    ensures
        ({
            let l = layout_from(cs, collapsed, selected, width, i, last);
            forall|k: int| 0 <= k < l.len() && (#[trigger] l[k]).1 is None ==> {
                &&& exists|b: int| k < b < l.len() && (#[trigger] l[b]).1 is Some
                &&& (k == 0 && last is Some) || exists|a: int| 0 <= a < k && (#[trigger] l[a]).1 is Some
            }
        }),
    decreases cs.len() - i,
{
    let l = layout_from(cs, collapsed, selected, width, i, last);
    if i < cs.len() {
        let c = cs[i];
        let h = descendants(cs, i);
        lemma_deeper_run(cs, i + 1, c.depth);
        let is_col = collapsed.contains(i as usize);
        let next = if is_col { i + h + 1 } else { i + 1 };
        let starts = match last {
            None => true,
            Some(d) => d < c.depth,
        };
        let (ap, tp) = prefix_for(c.depth as nat, starts);
        let author_prefix = if selected == Some(i as usize) { selected_prefix(c.depth as nat) } else { ap };
        let body = if is_col { collapsed_note(h) } else { cleaned(c.text@) };
        let label = author_label(c.author@, h, is_col);
        let sep = separator(last, c.depth);
        let a_lines = wrapped(author_prefix, label, width, Some(i as usize));
        let b_lines = wrapped(tp, body, width, Some(i as usize));
        let r = layout_from(cs, collapsed, selected, width, next, Some(c.depth));
        assert(l == sep + a_lines + b_lines + r);
        lemma_layout_gaps(cs, collapsed, selected, width, next, Some(c.depth));
        assert(c.author@.len() > 0);
        assert(label.len() >= c.author@.len());
        lemma_wrapped_owned(author_prefix, label, width, Some(i as usize));
        lemma_wrapped_owned(tp, body, width, Some(i as usize));
        lemma_separator(last, c.depth);
        let s0 = sep.len() as int;
        let s1 = s0 + a_lines.len();
        let s2 = s1 + b_lines.len();
        assert(s0 <= 1);
        assert(s0 == 1 ==> last is Some);
        assert(l[s0] == a_lines[0]);
        assert(l[s0].1 is Some);
        assert forall|k: int| 0 <= k < l.len() && (#[trigger] l[k]).1 is None implies {
            &&& exists|b: int| k < b < l.len() && (#[trigger] l[b]).1 is Some
            &&& (k == 0 && last is Some) || exists|a: int| 0 <= a < k && (#[trigger] l[a]).1 is Some
        } by {
            if k < s0 {
                assert(k == 0);
                assert(l[s0].1 is Some);
            } else if k < s1 {
                assert(l[k] == a_lines[k - s0]);
            } else if k < s2 {
                assert(l[k] == b_lines[k - s1]);
            } else {
                let kr = k - s2;
                assert(l[k] == r[kr]);
                assert(r[kr].1 is None);
                let b = choose|b: int| kr < b < r.len() && (#[trigger] r[b]).1 is Some;
                assert(l[b + s2] == r[b]);
                if kr == 0 {
                    assert(l[s0].1 is Some);
                } else {
                    let a = choose|a: int| 0 <= a < kr && (#[trigger] r[a]).1 is Some;
                    assert(l[a + s2] == r[a]);
                }
            }
        }
    }
}

/// When every comment has an author, a line that belongs to no comment
/// (a separator) always falls between two lines that belong to comments.
pub proof fn law_separators_fall_between_comments(cs: Seq<Comment>, collapsed: Set<usize>, selected: Option<usize>, width: int)
    requires
        cs.len() > 0,
        forall|j: int| 0 <= j < cs.len() ==> (#[trigger] cs[j]).author@.len() > 0,
    ensures
        ({
            let l = comment_lines(cs, collapsed, selected, width);
            forall|k: int| 0 <= k < l.len() && (#[trigger] l[k]).1 is None ==> {
                &&& exists|b: int| k < b < l.len() && (#[trigger] l[b]).1 is Some
                &&& exists|a: int| 0 <= a < k && (#[trigger] l[a]).1 is Some
            }
        }),
{
    let w = if width < 1 { 1 } else { width };
    lemma_layout_gaps(cs, collapsed, selected, w, 0, None);
}

/// Who owns the lines of a thread: every line is a separator or belongs to
/// a shown comment; every shown comment with an author line owns a line;
/// the lines of a comment come in one block, so that bringing it into view
/// has a first and a last line to go by; and the blocks come in the order
/// of the comments.
pub proof fn law_shown_comments_own_their_lines(cs: Seq<Comment>, collapsed: Set<usize>, selected: Option<usize>, width: int)
    requires
        cs.len() > 0,
        cs.len() <= usize::MAX,
    ensures
        ({
            let l = comment_lines(cs, collapsed, selected, width);
            let v = visible(cs, collapsed);
            &&& forall|k: int| 0 <= k < l.len() && (#[trigger] l[k]).1 is Some ==> v.contains(l[k].1->0)
            &&& forall|p: int| 0 <= p < v.len() && has_author_line(cs, collapsed, #[trigger] v[p])
                ==> exists|k: int| 0 <= k < l.len() && (#[trigger] l[k]).1 == Some(v[p])
            &&& forall|a: int, m: int, b: int| 0 <= a < m < b < l.len() && (#[trigger] l[a]).1 is Some
                && (#[trigger] l[b]).1 == l[a].1 ==> (#[trigger] l[m]).1 == l[a].1
            &&& forall|a: int, b: int| 0 <= a < b < l.len() && (#[trigger] l[a]).1 is Some
                && (#[trigger] l[b]).1 is Some ==> l[a].1->0 <= l[b].1->0
        }),
{
    let w = if width < 1 {
        1
    } else {
        width
    };
    lemma_layout_owners(cs, collapsed, selected, w, 0, None);
}

proof fn lemma_rails_len(n: nat)
    ensures
        rails(n).len() == 3 * n,
    decreases n,
{
    if n > 0 {
        lemma_rails_len((n - 1) as nat);
    }
}

proof fn lemma_wrapped_fits(prefix: Seq<char>, text: Seq<char>, width: int, owner: Option<usize>)
    requires
        prefix.len() < width,
    ensures
        forall|k: int| 0 <= k < wrapped(prefix, text, width, owner).len() ==> (#[trigger] wrapped(prefix, text, width, owner)[k]).0.len() <= width,
{
    law_wrapped_lines_fit(prefix, text, width, owner);
}

proof fn lemma_layout_fits(cs: Seq<Comment>, collapsed: Set<usize>, selected: Option<usize>, width: int, i: int, last: Option<usize>)
    requires
        0 <= i,
        width >= 3,
        forall|j: int| 0 <= j < cs.len() ==> 3 * (#[trigger] cs[j]).depth < width,
    ensures
        forall|k: int| 0 <= k < layout_from(cs, collapsed, selected, width, i, last).len()
            ==> (#[trigger] layout_from(cs, collapsed, selected, width, i, last)[k]).0.len() <= width,
    decreases cs.len() - i,
{
    let l = layout_from(cs, collapsed, selected, width, i, last);
    if i < cs.len() {
        let c = cs[i];
        let h = descendants(cs, i);
        lemma_deeper_run(cs, i + 1, c.depth);
        let is_col = collapsed.contains(i as usize);
        let next = if is_col { i + h + 1 } else { i + 1 };
        let starts = match last {
            None => true,
            Some(d) => d < c.depth,
        };
        let (ap, tp) = prefix_for(c.depth as nat, starts);
        let author_prefix = if selected == Some(i as usize) {
            selected_prefix(c.depth as nat)
        } else {
            ap
        };
        let body = if is_col { collapsed_note(h) } else { cleaned(c.text@) };
        let label = author_label(c.author@, h, is_col);
        let sep = separator(last, c.depth);
        let a_lines = wrapped(author_prefix, label, width, Some(i as usize));
        let b_lines = wrapped(tp, body, width, Some(i as usize));
        let r = layout_from(cs, collapsed, selected, width, next, Some(c.depth));
        assert(l == sep + a_lines + b_lines + r);
        lemma_layout_fits(cs, collapsed, selected, width, next, Some(c.depth));
        assert(3 * c.depth < width);
        if c.depth > 0 {
            lemma_rails_len((c.depth - 1) as nat);
        }
        assert(author_prefix.len() < width);
        assert(tp.len() < width);
        lemma_wrapped_fits(author_prefix, label, width, Some(i as usize));
        lemma_wrapped_fits(tp, body, width, Some(i as usize));
        match last {
            Some(d) => {
                let shared: nat = if d < c.depth { d as nat } else { c.depth as nat };
                lemma_rails_len(shared);
            },
            None => {},
        }
        assert forall|k: int| 0 <= k < sep.len() implies (#[trigger] sep[k]).0.len() <= width by {}
        let s0 = sep.len() as int;
        let s1 = s0 + a_lines.len();
        let s2 = s1 + b_lines.len();
        assert forall|k: int| 0 <= k < l.len() implies (#[trigger] l[k]).0.len() <= width by {
            if k < s0 {
                assert(l[k] == sep[k]);
            } else if k < s1 {
                assert(l[k] == a_lines[k - s0]);
            } else if k < s2 {
                assert(l[k] == b_lines[k - s1]);
            } else {
                assert(l[k] == r[k - s2]);
            }
        }
    }
}

/// Every line of a thread fits the width, when the width leaves room for
/// the rails of the deepest comment and for the top-level indent.
pub proof fn law_thread_lines_fit_the_width(cs: Seq<Comment>, collapsed: Set<usize>, selected: Option<usize>, width: int)
    requires
        cs.len() > 0,
        width >= 3,
        forall|j: int| 0 <= j < cs.len() ==> 3 * (#[trigger] cs[j]).depth < width,
    ensures
        forall|k: int| 0 <= k < comment_lines(cs, collapsed, selected, width).len()
            ==> (#[trigger] comment_lines(cs, collapsed, selected, width)[k]).0.len() <= width,
{
    lemma_layout_fits(cs, collapsed, selected, width, 0, None);
}

// ---------------------------------------------------------------------------
// The reader
// ---------------------------------------------------------------------------

/// `q`, Control-C and Control-D leave the reader whatever it shows, and
/// change nothing.
pub proof fn law_quit_keys_quit(a: AppView, key: KeyEvent)
    requires
        key.press,
        quits(key),
    ensures
        key_step(a, key) == (a, Effect::Quit),
{
}

/// Every key keeps the reader coherent: the selected post exists (or is the
/// first of none) and the comments are not scrolled past their end.
pub proof fn law_keys_keep_coherent(a: AppView, key: KeyEvent)
    requires
        coherent(a),
    ensures
        coherent(key_step(a, key).0),
{
}

/// Loading posts or comments, and fitting the comment view to its lines,
/// leave the reader coherent.
pub proof fn law_loads_keep_coherent(a: AppView, posts: Seq<crate::model::Post>, status: Seq<char>, comments: Seq<Comment>, lines: Seq<LineView>, height: int)
    requires
        coherent(a),
        height >= 1,
    ensures
        coherent(crate::reader::with_posts(a, posts, status)),
        coherent(crate::reader::with_comments(a, comments)),
        coherent(crate::reader::fitted(a, lines, height)),
{
    let max: usize = if lines.len() > height {
        (lines.len() - height) as usize
    } else {
        0
    };
    let scroll: usize = if a.comment_scroll < max {
        a.comment_scroll
    } else {
        max
    };
    law_scroll_stays_in_range(lines, a.comment_selected, scroll as int, height, max as int);
}

/// Moving on empty lists changes neither selection nor scrolling.
pub proof fn law_moving_on_empty_lists_changes_nothing(a: AppView, key: KeyEvent)
    requires
        coherent(a),
        a.posts.len() == 0,
        a.comments.len() == 0,
        a.comment_max_scroll == 0,
        key.code == crate::input::KeyCode::Char('j') || key.code == crate::input::KeyCode::Down
            || key.code == crate::input::KeyCode::Char('k') || key.code == crate::input::KeyCode::Up
            || key.code == crate::input::KeyCode::Char('g') || key.code == crate::input::KeyCode::Char('G'),
    ensures
        key_step(a, key).0.post_selected == a.post_selected,
        key_step(a, key).0.comment_selected == a.comment_selected,
        key_step(a, key).0.comment_scroll == a.comment_scroll,
        key_step(a, key).0.comment_max_scroll == a.comment_max_scroll,
        key_step(a, key).1 == Effect::Nothing || key_step(a, key).1 == Effect::Quit,
{
}

/// Collapsing a comment and then toggling it again brings back the same
/// set of collapsed comments, with the same comment selected.
pub proof fn law_toggle_twice_restores(a: AppView)
    requires
        a.mode == crate::model::Mode::Comments,
        a.comments.len() > 0,
    ensures
        after_toggle_collapse(after_toggle_collapse(a)).collapsed == a.collapsed,
        after_toggle_collapse(after_toggle_collapse(a)).comment_selected == a.comment_selected,
        after_toggle_collapse(after_toggle_collapse(a)).comments == a.comments,
{
    let index = if a.comment_selected < a.comments.len() {
        a.comment_selected
    } else {
        (a.comments.len() - 1) as usize
    };
    let b = after_toggle_collapse(a);
    if a.collapsed.contains(index) {
        assert(b.collapsed.insert(index) =~= a.collapsed);
    } else {
        assert(b.collapsed.remove(index) =~= a.collapsed);
    }
}

proof fn lemma_position_in_increasing(v: Seq<usize>, q: int)
    requires
        0 <= q < v.len(),
        forall|k: int, j: int| 0 <= k < j < v.len() ==> #[trigger] v[k] < #[trigger] v[j],
    ensures
        position_of(v, v[q]) == Some(q),
{
    lemma_position_from(v, v[q], 0);
    match position_of(v, v[q]) {
        Some(p) => {
            if p < q {
                assert(v[p] < v[q]);
            } else if p > q {
                assert(v[q] < v[p]);
            }
        },
        None => {
            assert(v[q] != v[q]);
        },
    }
}

/// Moving the selection to the next shown comment and back returns to the
/// comment selected before, when it is shown and not the last one shown;
/// and the other way round when it is not the first.
pub proof fn law_select_next_then_previous(a: AppView, p: int)
    requires
        a.comments.len() <= usize::MAX,
        0 <= p < visible(a.comments, a.collapsed).len(),
        a.comment_selected == visible(a.comments, a.collapsed)[p],
    ensures
        p + 1 < visible(a.comments, a.collapsed).len() ==> after_select_previous(after_select_next(a)).comment_selected == a.comment_selected,
        p > 0 ==> after_select_next(after_select_previous(a)).comment_selected == a.comment_selected,
        after_select_next(a).comment_selected == visible(a.comments, a.collapsed)[if p + 1 < visible(a.comments, a.collapsed).len() { p + 1 } else { p }],
        after_select_previous(a).comment_selected == visible(a.comments, a.collapsed)[if p > 0 { p - 1 } else { 0 }],
{
    let v = visible(a.comments, a.collapsed);
    law_collapsed_replies_are_hidden(a.comments, a.collapsed);
    lemma_position_in_increasing(v, p);
    if p + 1 < v.len() {
        lemma_position_in_increasing(v, p + 1);
    }
    if p > 0 {
        lemma_position_in_increasing(v, p - 1);
    }
}

/// The selection only ever moves onto a shown comment.
pub proof fn law_selection_moves_among_shown(a: AppView)
    requires
        visible(a.comments, a.collapsed).len() > 0,
    ensures
        visible(a.comments, a.collapsed).contains(after_select_next(a).comment_selected),
        visible(a.comments, a.collapsed).contains(after_select_previous(a).comment_selected),
{
    let v = visible(a.comments, a.collapsed);
    lemma_position_from(v, a.comment_selected, 0);
    let p = match position_of(v, a.comment_selected) {
        Some(p) => p,
        None => 0,
    };
    let q = if p + 1 < v.len() {
        p + 1
    } else {
        v.len() - 1
    };
    assert(v[q] == after_select_next(a).comment_selected);
    let q2 = if p > 0 {
        p - 1
    } else {
        0
    };
    assert(v[q2] == after_select_previous(a).comment_selected);
}

// ---------------------------------------------------------------------------
// Scrolling
// ---------------------------------------------------------------------------

/// The scroll position never goes past the limit.
pub proof fn law_scroll_stays_in_range(lines: Seq<LineView>, selected: usize, current: int, height: int, max_scroll: int)
    requires
        0 <= current <= max_scroll,
    ensures
        0 <= scroll_target(lines, selected, current, height, max_scroll) <= max_scroll,
{
    lemma_owner_range(lines, selected);
}

/// Bringing a comment into view shows all of it: when its lines fit in the
/// viewport and the scroll limit lets the viewport reach the last line, the
/// new position shows the comment from its first line to its last.
pub proof fn law_scrolling_shows_whole_comment(lines: Seq<LineView>, selected: usize, current: int, height: int, max_scroll: int, first: int, last: int)
    requires
        0 <= current,
        0 <= max_scroll,
        owner_range(lines, selected) == Some((first, last)),
        last - first + 1 <= (if height < 1 { 1 } else { height }),
        max_scroll + (if height < 1 { 1 } else { height }) >= lines.len(),
    ensures
        scroll_target(lines, selected, current, height, max_scroll) <= first,
        last < scroll_target(lines, selected, current, height, max_scroll) + (if height < 1 { 1 } else { height }),
{
    lemma_owner_range(lines, selected);
}

} // verus!
