//! Laying a comment thread out as lines of text: tree rails, selection
//! marks, collapsed subtrees, word wrapping, and scrolling to a comment.
use vstd::prelude::*;
use vstd::string::StrSliceExecFns;
use std::collections::HashSet;
use crate::chars::{
    chars_of, decimal, is_whitespace, is_ws, lemma_trim_start_suffix,
    push_all, push_decimal, slice_vec, split_lines, split_lines_exec, string_of, trim_end,
    trim_end_to, trim_start, trim_start_from,
};
use crate::model::Comment;
use crate::text::{clean_comment_chars, cleaned};

verus! {

broadcast use vstd::std_specs::hash::group_hash_axioms;

// ---------------------------------------------------------------------------
// Tree rails
// ---------------------------------------------------------------------------

/// One rail segment: a vertical bar and two spaces.
pub open spec fn rail() -> Seq<char> {
    seq!['│', ' ', ' ']
}

/// `n` rail segments.
pub open spec fn rails(n: nat) -> Seq<char>
    decreases n,
{
    if n == 0 {
        seq![]
    } else {
        rails((n - 1) as nat) + rail()
    }
}

/// The joint before the author of a reply that opens a branch.
pub open spec fn branch_joint() -> Seq<char> {
    seq!['┌', '─', ' ']
}

/// The joint before the author of a reply that continues a branch.
pub open spec fn sibling_joint() -> Seq<char> {
    seq!['├', '─', ' ']
}

/// The prefixes of a comment at `depth`: before its author line and before
/// its text lines. A top-level comment has no author prefix and its text is
/// indented by two spaces; a reply draws one rail per ancestor level, then
/// a joint (`┌─` when it opens a branch, `├─` otherwise) before the author
/// and a rail before the text.
pub open spec fn prefix_for(depth: nat, starts_branch: bool) -> (Seq<char>, Seq<char>) {
    if depth == 0 {
        (seq![], seq![' ', ' '])
    } else {
        let r = rails((depth - 1) as nat);
        (r + if starts_branch {
            branch_joint()
        } else {
            sibling_joint()
        }, r + rail())
    }
}

/// The author prefix of the selected comment: a marker in place of the joint.
pub open spec fn selected_prefix(depth: nat) -> Seq<char> {
    if depth == 0 {
        seq!['▶', ' ']
    } else {
        rails((depth - 1) as nat) + seq!['▶', '─', ' ']
    }
}

/// Appends `n` rail segments to `out`.
pub fn push_rails(out: &mut Vec<char>, n: usize)
    ensures
        final(out)@ == old(out)@ + rails(n as nat),
{
    let mut k: usize = 0;
    while k < n
        invariant
            k <= n,
            out@ == old(out)@ + rails(k as nat),
        decreases n - k,
    {
        out.push('│');
        out.push(' ');
        out.push(' ');
        k = k + 1;
        assert(out@ =~= old(out)@ + rails(k as nat));
    }
}

fn prefix_chars(depth: usize, starts_branch: bool) -> (r: (Vec<char>, Vec<char>))
    ensures
        (r.0@, r.1@) == prefix_for(depth as nat, starts_branch),
{
    if depth == 0 {
        let t = vec![' ', ' '];
        assert(t@ =~= seq![' ', ' ']);
        return (Vec::new(), t);
    }
    let mut author: Vec<char> = Vec::new();
    push_rails(&mut author, depth - 1);
    let mut text = author.clone();
    assert(text@ == author@);
    if starts_branch {
        author.push('┌');
    } else {
        author.push('├');
    }
    author.push('─');
    author.push(' ');
    text.push('│');
    text.push(' ');
    text.push(' ');
    proof {
        let r = rails((depth - 1) as nat);
        assert(author@ =~= r + if starts_branch {
            branch_joint()
        } else {
            sibling_joint()
        });
        assert(text@ =~= r + rail());
    }
    (author, text)
}

fn selected_prefix_chars(depth: usize) -> (r: Vec<char>)
    ensures
        r@ == selected_prefix(depth as nat),
{
    if depth == 0 {
        let r = vec!['▶', ' '];
        assert(r@ =~= seq!['▶', ' ']);
        return r;
    }
    let mut r: Vec<char> = Vec::new();
    push_rails(&mut r, depth - 1);
    r.push('▶');
    r.push('─');
    r.push(' ');
    assert(r@ =~= rails((depth - 1) as nat) + seq!['▶', '─', ' ']);
    r
}

/// The author prefix and the text prefix of a comment at `depth`.
pub fn comment_prefix_for(depth: usize, starts_branch: bool) -> (r: (String, String))
    ensures
        (r.0@, r.1@) == prefix_for(depth as nat, starts_branch),
{
    let (a, t) = prefix_chars(depth, starts_branch);
    (string_of(&a), string_of(&t))
}

/// The author prefix of the selected comment at `depth`.
pub fn selected_comment_prefix(depth: usize) -> (r: String)
    ensures
        r@ == selected_prefix(depth as nat),
{
    let p = selected_prefix_chars(depth);
    string_of(&p)
}

// ---------------------------------------------------------------------------
// Subtrees
// ---------------------------------------------------------------------------

/// How many comments from position `i` on are deeper than `depth`, in a row.
pub open spec fn deeper_run(cs: Seq<Comment>, i: int, depth: usize) -> nat
    decreases cs.len() - i,
{
    if 0 <= i < cs.len() && cs[i].depth > depth {
        1 + deeper_run(cs, i + 1, depth)
    } else {
        0
    }
}

/// The number of replies below comment `index`: the comments after it that
/// are deeper than it, up to the next one that is not.
pub open spec fn descendants(cs: Seq<Comment>, index: int) -> nat {
    if 0 <= index < cs.len() {
        deeper_run(cs, index + 1, cs[index].depth)
    } else {
        0
    }
}

pub proof fn lemma_deeper_run(cs: Seq<Comment>, i: int, depth: usize)
    requires
        0 <= i <= cs.len(),
    ensures
        i + deeper_run(cs, i, depth) <= cs.len(),
        forall|j: int| i <= j < i + deeper_run(cs, i, depth) ==> cs[j].depth > depth,
        i + deeper_run(cs, i, depth) < cs.len() ==> cs[i + deeper_run(cs, i, depth)].depth
            <= depth,
    decreases cs.len() - i,
{
    if i < cs.len() && cs[i].depth > depth {
        lemma_deeper_run(cs, i + 1, depth);
    }
}

/// The number of replies below comment `index` (0 when there is no such comment).
pub fn comment_descendant_count(comments: &[Comment], index: usize) -> (r: usize)
    ensures
        r == descendants(comments@, index as int),
{
    if index >= comments.len() {
        return 0;
    }
    let depth = comments[index].depth;
    let mut j = index + 1;
    while j < comments.len() && comments[j].depth > depth
        invariant
            index < j <= comments.len(),
            depth == comments@[index as int].depth,
            deeper_run(comments@, index + 1, depth) == (j - index - 1) + deeper_run(
                comments@,
                j as int,
                depth,
            ),
        decreases comments.len() - j,
    {
        j = j + 1;
    }
    j - index - 1
}

/// The comments shown when the comments in `collapsed` have their replies
/// hidden, from position `i` on: a comment with replies that is collapsed
/// hides all of them.
pub open spec fn visible_from(cs: Seq<Comment>, collapsed: Set<usize>, i: int) -> Seq<usize>
    decreases cs.len() - i,
{
    if i < 0 || i >= cs.len() {
        seq![]
    } else {
        let h = descendants(cs, i);
        proof {
            lemma_deeper_run(cs, i + 1, cs[i].depth);
        }
        let next = if h > 0 && collapsed.contains(i as usize) {
            i + h + 1
        } else {
            i + 1
        };
        seq![i as usize] + visible_from(cs, collapsed, next)
    }
}

/// The positions of the comments shown, in order.
pub open spec fn visible(cs: Seq<Comment>, collapsed: Set<usize>) -> Seq<usize> {
    visible_from(cs, collapsed, 0)
}

/// The positions of the comments shown when the comments in `collapsed`
/// have their replies hidden.
pub fn visible_comment_indices(comments: &[Comment], collapsed: &HashSet<usize>) -> (r: Vec<usize>)
    ensures
        r@ == visible(comments@, collapsed@),
{
    let mut out: Vec<usize> = Vec::new();
    let mut index: usize = 0;
    while index < comments.len()
        invariant
            index <= comments.len(),
            out@ + visible_from(comments@, collapsed@, index as int) == visible(
                comments@,
                collapsed@,
            ),
        decreases comments.len() - index,
    {
        proof {
            lemma_deeper_run(comments@, index + 1, comments@[index as int].depth);
        }
        let ghost before = out@;
        let ghost at = index;
        out.push(index);
        let hidden = comment_descendant_count(comments, index);
        if hidden > 0 && collapsed.contains(&index) {
            index = index + hidden + 1;
        } else {
            index = index + 1;
        }
        assert(out@ + visible_from(comments@, collapsed@, index as int) =~= before
            + visible_from(comments@, collapsed@, at as int));
    }
    out
}


// ---------------------------------------------------------------------------
// Lines
// ---------------------------------------------------------------------------

/// A line of the laid-out thread and the comment it belongs to, if any.
#[derive(Clone, Debug)]
pub struct CommentLine {
    pub text: String,
    pub owner: Option<usize>,
}

/// What a line says: its text and its owner.
pub type LineView = (Seq<char>, Option<usize>);

impl View for CommentLine {
    type V = LineView;

    open spec fn view(&self) -> LineView {
        (self.text@, self.owner)
    }
}

impl DeepView for CommentLine {
    type V = LineView;

    open spec fn deep_view(&self) -> LineView {
        (self.text@, self.owner)
    }
}

impl CommentLine {
    /// A line with the given text and owner.
    pub fn new(text: String, owner: Option<usize>) -> (r: Self)
        ensures
            r.text == text,
            r.owner == owner,
    {
        CommentLine { text, owner }
    }
}

fn line_of(text: &[char], owner: Option<usize>) -> (r: CommentLine)
    ensures
        r@ == (text@, owner),
{
    CommentLine::new(string_of(text), owner)
}

/// The texts of `lines`, in order.
pub fn line_texts<'a>(lines: &'a [CommentLine]) -> (r: Vec<&'a str>)
    ensures
        r@.len() == lines@.len(),
        forall|i: int| 0 <= i < lines@.len() ==> #[trigger] r@[i]@ == lines@[i].text@,
{
    let mut r: Vec<&'a str> = Vec::new();
    let mut i: usize = 0;
    while i < lines.len()
        invariant
            i <= lines.len(),
            r@.len() == i,
            forall|j: int| 0 <= j < i ==> #[trigger] r@[j]@ == lines@[j].text@,
        decreases lines.len() - i,
    {
        r.push(lines[i].text.as_str());
        i = i + 1;
    }
    r
}

/// The owners of `lines`, in order.
pub fn line_owners(lines: &[CommentLine]) -> (r: Vec<Option<usize>>)
    ensures
        r@.len() == lines@.len(),
        forall|i: int| 0 <= i < lines@.len() ==> #[trigger] r@[i] == lines@[i].owner,
{
    let mut r: Vec<Option<usize>> = Vec::new();
    let mut i: usize = 0;
    while i < lines.len()
        invariant
            i <= lines.len(),
            r@.len() == i,
            forall|j: int| 0 <= j < i ==> #[trigger] r@[j] == lines@[j].owner,
        decreases lines.len() - i,
    {
        r.push(lines[i].owner);
        i = i + 1;
    }
    r
}

// ---------------------------------------------------------------------------
// Word wrapping
// ---------------------------------------------------------------------------

/// The last whitespace position in `1..k` of `t`.
pub open spec fn last_space_below(t: Seq<char>, k: int) -> Option<int>
    decreases k,
{
    if k <= 1 {
        None
    } else if is_ws(t[k - 1]) {
        Some(k - 1)
    } else {
        last_space_below(t, k - 1)
    }
}

pub proof fn lemma_last_space_below(t: Seq<char>, k: int)
    ensures
        match last_space_below(t, k) {
            Some(j) => 1 <= j < k && is_ws(t[j]) && forall|m: int| j < m < k ==> !is_ws(t[m]),
            None => forall|m: int| 1 <= m < k ==> !is_ws(t[m]),
        },
    decreases k,
{
    if k > 1 && !is_ws(t[k - 1]) {
        lemma_last_space_below(t, k - 1);
    }
}

/// Where to break `t` so that its first part holds at most `width`
/// characters: at the last whitespace before position `width` (but not at
/// position 0), else at `width`; the whole of `t` when it is short enough.
pub open spec fn break_point(t: Seq<char>, width: int) -> int {
    if width >= t.len() {
        t.len() as int
    } else {
        match last_space_below(t, width) {
            Some(j) => j,
            None => width,
        }
    }
}

/// The byte offset where `text` is broken to fit `width` characters: the
/// length in UTF-8 of the part before the break.
pub fn split_at_width(text: &str, width: usize) -> (r: usize)
    ensures
        r == vstd::utf8::encode_utf8(text@.subrange(0, break_point(text@, width as int))).len(),
{
    let cs = chars_of(text);
    let k = split_width_chars(&cs, width);
    proof {
        lemma_last_space_below(text@, width as int);
    }
    crate::spans::byte_at_char(text, k)
}

pub(crate) fn split_width_chars(t: &[char], width: usize) -> (r: usize)
    ensures
        r == break_point(t@, width as int),
{
    if width >= t.len() {
        return t.len();
    }
    let mut k = width;
    while k > 1 && !is_whitespace(t[k - 1])
        invariant
            k <= width < t.len(),
            last_space_below(t@, width as int) == last_space_below(t@, k as int),
        decreases k,
    {
        k = k - 1;
    }
    if k > 1 {
        k - 1
    } else {
        width
    }
}

/// The pieces `rest` is wrapped into at `avail` characters per line: each
/// piece is broken at `break_point`, has its trailing whitespace removed,
/// and the next piece starts after the whitespace that follows the break.
pub open spec fn wrap_pieces(rest: Seq<char>, avail: int) -> Seq<Seq<char>>
    decreases rest.len(),
{
    if rest.len() == 0 {
        seq![]
    } else if rest.len() <= avail || avail < 1 {
        seq![rest]
    } else {
        let k = break_point(rest, avail);
        proof {
            lemma_last_space_below(rest, avail);
            lemma_trim_start_suffix(rest.subrange(k, rest.len() as int));
        }
        seq![trim_end(rest.subrange(0, k))] + wrap_pieces(
            trim_start(rest.subrange(k, rest.len() as int)),
            avail,
        )
    }
}

/// The pieces one line of text is wrapped into; a line that is blank after
/// its trailing whitespace is removed gives one empty piece.
pub open spec fn line_pieces(raw: Seq<char>, avail: int) -> Seq<Seq<char>> {
    let r = trim_end(raw);
    if r.len() == 0 {
        seq![seq![]]
    } else {
        wrap_pieces(r, avail)
    }
}

/// The pieces all of `ls` are wrapped into, line after line.
pub open spec fn lines_pieces(ls: Seq<Seq<char>>, avail: int) -> Seq<Seq<char>>
    decreases ls.len(),
{
    if ls.len() == 0 {
        seq![]
    } else {
        lines_pieces(ls.drop_last(), avail) + line_pieces(ls.last(), avail)
    }
}

/// The room left for text on a line of `width` characters after `prefix`:
/// at least one character.
pub open spec fn room(prefix: Seq<char>, width: int) -> int {
    if width - prefix.len() >= 1 {
        width - prefix.len()
    } else {
        1
    }
}

/// Pieces prefixed and owned.
pub open spec fn owned_lines(pieces: Seq<Seq<char>>, prefix: Seq<char>, owner: Option<usize>) -> Seq<LineView> {
    pieces.map_values(|p: Seq<char>| (prefix + p, owner))
}

/// The lines `text` takes after `prefix` on lines `width` characters wide:
/// each line of `text` is wrapped on its own and each piece gets `prefix`.
pub open spec fn wrapped(prefix: Seq<char>, text: Seq<char>, width: int, owner: Option<usize>) -> Seq<LineView> {
    owned_lines(lines_pieces(split_lines(text), room(prefix, width)), prefix, owner)
}

pub proof fn lemma_owned_lines_append(a: Seq<Seq<char>>, b: Seq<Seq<char>>, prefix: Seq<char>, owner: Option<usize>)
    ensures
        owned_lines(a + b, prefix, owner) == owned_lines(a, prefix, owner) + owned_lines(b, prefix, owner),
{
    assert(owned_lines(a + b, prefix, owner) =~= owned_lines(a, prefix, owner) + owned_lines(b, prefix, owner));
}

/// Appends the wrapped pieces of `rest0` to `lines`.
fn push_wrap_pieces(lines: &mut Vec<CommentLine>, owner: Option<usize>, prefix: &[char], rest0: &[char], avail: usize)
    requires
        avail >= 1,
    ensures
        final(lines).deep_view() == old(lines).deep_view() + owned_lines(wrap_pieces(rest0@, avail as int), prefix@, owner),
{
    let mut rest = slice_vec(rest0, 0, rest0.len());
    assert(rest@ =~= rest0@);
    loop
        invariant_except_break
            lines.deep_view() + owned_lines(wrap_pieces(rest@, avail as int), prefix@, owner)
                == old(lines).deep_view() + owned_lines(wrap_pieces(rest0@, avail as int), prefix@, owner),
        invariant
            avail >= 1,
        ensures
            lines.deep_view() == old(lines).deep_view() + owned_lines(wrap_pieces(rest0@, avail as int), prefix@, owner),
        decreases rest.len(),
    {
        let ghost before = lines.deep_view();
        let ghost old_rest = rest@;
        if rest.len() == 0 {
            assert(owned_lines(wrap_pieces(rest@, avail as int), prefix@, owner) =~= seq![]);
            assert(lines.deep_view() + seq![] =~= lines.deep_view());
            break;
        }
        if rest.len() <= avail {
            let mut t = slice_vec(prefix, 0, prefix.len());
            push_all(&mut t, &rest);
            assert(t@ =~= prefix@ + rest@);
            lines.push(line_of(&t, owner));
            proof {
                assert(wrap_pieces(old_rest, avail as int) == seq![old_rest]);
                assert(owned_lines(seq![old_rest], prefix@, owner) =~= seq![(prefix@ + old_rest, owner)]);
                assert(lines.deep_view() =~= before.push((prefix@ + old_rest, owner)));
            }
            break;
        }
        let k = split_width_chars(&rest, avail);
        proof {
            lemma_last_space_below(rest@, avail as int);
        }
        let head_end = trim_end_to(&rest, k);
        let mut t = slice_vec(prefix, 0, prefix.len());
        let head = slice_vec(&rest, 0, head_end);
        push_all(&mut t, &head);
        lines.push(line_of(&t, owner));
        let tail_start = trim_start_from(&rest, k);
        proof {
            lemma_trim_start_suffix(rest@.subrange(k as int, rest@.len() as int));
        }
        let next = slice_vec(&rest, tail_start, rest.len());
        proof {
            let piece = trim_end(old_rest.subrange(0, k as int));
            assert(t@ =~= prefix@ + piece);
            assert(wrap_pieces(old_rest, avail as int) == seq![piece] + wrap_pieces(next@, avail as int));
            lemma_owned_lines_append(seq![piece], wrap_pieces(next@, avail as int), prefix@, owner);
            assert(owned_lines(seq![piece], prefix@, owner) =~= seq![(prefix@ + piece, owner)]);
            assert(lines.deep_view() =~= before.push((prefix@ + piece, owner)));
        }
        rest = next;
    }
}

/// Appends the wrapped pieces of the lines `ls[from..]`, each after `prefix`.
fn push_line_list(
    lines: &mut Vec<CommentLine>,
    owner: Option<usize>,
    prefix: &[char],
    ls: &Vec<Vec<char>>,
    from: usize,
    avail: usize,
)
    requires
        avail >= 1,
        from <= ls.len(),
    ensures
        final(lines).deep_view() == old(lines).deep_view() + owned_lines(
            lines_pieces(ls.deep_view().subrange(from as int, ls.len() as int), avail as int),
            prefix@,
            owner,
        ),
{
    let mut i: usize = from;
    assert(ls.deep_view().subrange(from as int, from as int) =~= Seq::<Seq<char>>::empty());
    assert(old(lines).deep_view() + owned_lines(seq![], prefix@, owner) =~= old(lines).deep_view());
    while i < ls.len()
        invariant
            from <= i <= ls.len(),
            avail >= 1,
            lines.deep_view() == old(lines).deep_view() + owned_lines(lines_pieces(ls.deep_view().subrange(from as int, i as int), avail as int), prefix@, owner),
        decreases ls.len() - i,
    {
        let ghost pre = ls.deep_view().subrange(from as int, i as int);
        assert(ls.deep_view().subrange(from as int, i + 1).drop_last() =~= pre);
        assert(ls.deep_view().subrange(from as int, i + 1).last() == ls[i as int]@);
        let raw = ls[i].as_slice();
        let e = trim_end_to(raw, raw.len());
        assert(raw@.subrange(0, raw@.len() as int) =~= raw@);
        assert(raw@.subrange(0, e as int) == trim_end(raw@));
        let ghost mid = lines.deep_view();
        if e == 0 {
            lines.push(line_of(prefix, owner));
            proof {
                assert(line_pieces(raw@, avail as int) == seq![Seq::<char>::empty()]);
                assert(prefix@ + Seq::<char>::empty() =~= prefix@);
                assert(owned_lines(seq![Seq::<char>::empty()], prefix@, owner) =~= seq![(prefix@, owner)]);
                assert(lines.deep_view() =~= mid.push((prefix@, owner)));
                assert(lines.deep_view() =~= mid + owned_lines(line_pieces(raw@, avail as int), prefix@, owner));
            }
        } else {
            let r = slice_vec(raw, 0, e);
            assert(line_pieces(raw@, avail as int) == wrap_pieces(r@, avail as int));
            push_wrap_pieces(lines, owner, prefix, &r, avail);
        }
        proof {
            assert(lines_pieces(ls.deep_view().subrange(from as int, i + 1), avail as int) == lines_pieces(pre, avail as int) + line_pieces(raw@, avail as int));
            lemma_owned_lines_append(lines_pieces(pre, avail as int), line_pieces(raw@, avail as int), prefix@, owner);
            assert(lines.deep_view() =~= old(lines).deep_view() + owned_lines(lines_pieces(ls.deep_view().subrange(from as int, i + 1), avail as int), prefix@, owner));
        }
        i = i + 1;
    }
}

pub(crate) fn room_exec(prefix: &[char], width: usize) -> (r: usize)
    ensures
        r == room(prefix@, width as int),
        r >= 1,
{
    if width >= prefix.len() && width - prefix.len() >= 1 {
        width - prefix.len()
    } else {
        1
    }
}

/// Appends to `lines` the lines `text` takes after `prefix` on lines
/// `width` characters wide, all owned by `owner`.
pub fn push_wrapped_chars(lines: &mut Vec<CommentLine>, owner: Option<usize>, prefix: &[char], text: &[char], width: usize)
    ensures
        final(lines).deep_view() == old(lines).deep_view() + wrapped(prefix@, text@, width as int, owner),
{
    let avail = room_exec(prefix, width);
    let ls = split_lines_exec(text);
    push_line_list(lines, owner, prefix, &ls, 0, avail);
    assert(ls.deep_view().subrange(0, ls@.len() as int) =~= ls.deep_view());
}

/// The lines the first line `raw` of a text takes when its first piece
/// comes after `first` and the pieces after it after `cont`.
pub open spec fn first_line_wrapped(first: Seq<char>, cont: Seq<char>, raw: Seq<char>, width: int, owner: Option<usize>) -> Seq<LineView> {
    let r = trim_end(raw);
    let af = room(first, width);
    if r.len() == 0 {
        seq![(first, owner)]
    } else if r.len() <= af {
        seq![(first + r, owner)]
    } else {
        let k = break_point(r, af);
        seq![(first + trim_end(r.subrange(0, k)), owner)] + owned_lines(
            wrap_pieces(trim_start(r.subrange(k, r.len() as int)), room(cont, width)),
            cont,
            owner,
        )
    }
}

/// The lines `text` takes on lines `width` characters wide when its first
/// line comes after `first` and every later line after `cont`: each line of
/// `text` is wrapped on its own, the room on each line being what its
/// prefix leaves.
pub open spec fn wrapped_cont(first: Seq<char>, cont: Seq<char>, text: Seq<char>, width: int, owner: Option<usize>) -> Seq<LineView> {
    let ls = split_lines(text);
    if ls.len() == 0 {
        seq![]
    } else {
        first_line_wrapped(first, cont, ls[0], width, owner) + owned_lines(
            lines_pieces(ls.drop_first(), room(cont, width)),
            cont,
            owner,
        )
    }
}

fn joined(a: &[char], b: &[char]) -> (r: Vec<char>)
    ensures
        r@ == a@ + b@,
{
    let mut t = slice_vec(a, 0, a.len());
    push_all(&mut t, b);
    assert(t@ =~= a@ + b@);
    t
}

/// Appends to `lines` the lines `text` takes on lines `width` characters
/// wide, the first after `first_prefix` and every later one after
/// `continuation_prefix`, all owned by `owner`.
pub fn push_wrapped_lines_with_continuation(
    lines: &mut Vec<CommentLine>,
    owner: Option<usize>,
    first_prefix: &str,
    continuation_prefix: &str,
    text: &str,
    width: usize,
)
    ensures
        final(lines).deep_view() == old(lines).deep_view() + wrapped_cont(first_prefix@, continuation_prefix@, text@, width as int, owner),
{
    let f = chars_of(first_prefix);
    let c = chars_of(continuation_prefix);
    let t = chars_of(text);
    let ls = split_lines_exec(&t);
    if ls.len() == 0 {
        assert(old(lines).deep_view() + wrapped_cont(f@, c@, t@, width as int, owner) =~= old(lines).deep_view());
        return;
    }
    let af = room_exec(&f, width);
    let ac = room_exec(&c, width);
    let raw = ls[0].as_slice();
    assert(ls.deep_view()[0] == raw@);
    let e = trim_end_to(raw, raw.len());
    assert(raw@.subrange(0, raw@.len() as int) =~= raw@);
    assert(raw@.subrange(0, e as int) == trim_end(raw@));
    let ghost start = lines.deep_view();
    if e == 0 {
        lines.push(line_of(&f, owner));
    } else {
        let r = slice_vec(raw, 0, e);
        if r.len() <= af {
            lines.push(line_of(&joined(&f, &r), owner));
        } else {
            let k = split_width_chars(&r, af);
            proof {
                lemma_last_space_below(r@, af as int);
            }
            let head_end = trim_end_to(&r, k);
            let head = slice_vec(&r, 0, head_end);
            lines.push(line_of(&joined(&f, &head), owner));
            let tail_start = trim_start_from(&r, k);
            proof {
                lemma_trim_start_suffix(r@.subrange(k as int, r@.len() as int));
            }
            let next = slice_vec(&r, tail_start, r.len());
            push_wrap_pieces(lines, owner, &c, &next, ac);
        }
    }
    let ghost after_first = lines.deep_view();
    assert(after_first =~= start + first_line_wrapped(f@, c@, raw@, width as int, owner));
    push_line_list(lines, owner, &c, &ls, 1, ac);
    assert(ls.deep_view().subrange(1, ls@.len() as int) =~= ls.deep_view().drop_first());
    assert(lines.deep_view() =~= old(lines).deep_view() + wrapped_cont(f@, c@, t@, width as int, owner));
}

/// Appends to `lines` the lines `text` takes after `prefix` on lines
/// `width` characters wide, all owned by `owner`: each line of `text` is
/// wrapped at whitespace where it can be, and gets `prefix` in front.
pub fn push_wrapped_lines(lines: &mut Vec<CommentLine>, owner: Option<usize>, prefix: &str, text: &str, width: usize)
    ensures
        final(lines).deep_view() == old(lines).deep_view() + wrapped(prefix@, text@, width as int, owner),
{
    let p = chars_of(prefix);
    let t = chars_of(text);
    push_wrapped_chars(lines, owner, &p, &t, width);
}


// ---------------------------------------------------------------------------
// The thread
// ---------------------------------------------------------------------------

/// The author line of a comment: a collapsed comment with replies shows how
/// many are hidden, one without says it is collapsed.
pub open spec fn author_label(author: Seq<char>, hidden: nat, is_collapsed: bool) -> Seq<char> {
    if is_collapsed && hidden > 0 {
        author + " [+"@ + decimal(hidden) + "]"@
    } else if is_collapsed {
        author + " [collapsed]"@
    } else {
        author
    }
}

/// The text shown in place of a collapsed comment.
pub open spec fn collapsed_note(hidden: nat) -> Seq<char> {
    if hidden == 0 {
        "… comment collapsed"@
    } else {
        "… "@ + decimal(hidden) + " replies collapsed"@
    }
}

/// The line between a comment and the next one shown, if any. After a
/// comment at depth `last`, a comment at `depth` gets a line holding the
/// rails the two share, except that a reply of a top-level comment follows
/// it directly.
pub open spec fn separator(last: Option<usize>, depth: usize) -> Seq<LineView> {
    match last {
        None => seq![],
        Some(d) => {
            let shared: nat = if d < depth {
                d as nat
            } else {
                depth as nat
            };
            if depth <= d || shared > 0 {
                seq![(rails(shared), None)]
            } else {
                seq![]
            }
        },
    }
}

/// The lines of the comments shown from position `i` on, the comment shown
/// before them being at depth `last`. Each comment gets its author line
/// (with the selection marker when it is `selected`) and its cleaned text,
/// or a note when it is collapsed, whose replies are then skipped.
pub open spec fn layout_from(
    cs: Seq<Comment>,
    collapsed: Set<usize>,
    selected: Option<usize>,
    width: int,
    i: int,
    last: Option<usize>,
) -> Seq<LineView>
    decreases cs.len() - i,
{
    if i < 0 || i >= cs.len() {
        seq![]
    } else {
        let c = cs[i];
        let h = descendants(cs, i);
        proof {
            lemma_deeper_run(cs, i + 1, c.depth);
        }
        let is_col = collapsed.contains(i as usize);
        let starts = match last {
            None => true,
            Some(d) => d < c.depth,
        };
        let (ap, tp) = prefix_for(c.depth as nat, starts);
        let author_prefix = if selected == Some(i as usize) {
            selected_prefix(c.depth as nat)
        } else {
            ap
        };
        let body = if is_col {
            collapsed_note(h)
        } else {
            cleaned(c.text@)
        };
        let next = if is_col {
            i + h + 1
        } else {
            i + 1
        };
        separator(last, c.depth) + wrapped(
            author_prefix,
            author_label(c.author@, h, is_col),
            width,
            Some(i as usize),
        ) + wrapped(tp, body, width, Some(i as usize)) + layout_from(
            cs,
            collapsed,
            selected,
            width,
            next,
            Some(c.depth),
        )
    }
}

/// The lines of a thread on lines `width` characters wide (at least one):
/// "No comments." when there are none.
pub open spec fn comment_lines(
    cs: Seq<Comment>,
    collapsed: Set<usize>,
    selected: Option<usize>,
    width: int,
) -> Seq<LineView> {
    if cs.len() == 0 {
        seq![("No comments."@, None)]
    } else {
        layout_from(
            cs,
            collapsed,
            selected,
            if width < 1 {
                1
            } else {
                width
            },
            0,
            None,
        )
    }
}

fn author_label_chars(author: &str, hidden: usize, is_collapsed: bool) -> (r: Vec<char>)
    ensures
        r@ == author_label(author@, hidden as nat, is_collapsed),
{
    let mut r = chars_of(author);
    if is_collapsed && hidden > 0 {
        push_all(&mut r, &chars_of(" [+"));
        push_decimal(&mut r, hidden as u64);
        push_all(&mut r, &chars_of("]"));
    } else if is_collapsed {
        push_all(&mut r, &chars_of(" [collapsed]"));
    }
    r
}

fn collapsed_note_chars(hidden: usize) -> (r: Vec<char>)
    ensures
        r@ == collapsed_note(hidden as nat),
{
    if hidden == 0 {
        chars_of("… comment collapsed")
    } else {
        let mut r = chars_of("… ");
        push_decimal(&mut r, hidden as u64);
        push_all(&mut r, &chars_of(" replies collapsed"));
        r
    }
}

fn push_separator(lines: &mut Vec<CommentLine>, last: Option<usize>, depth: usize)
    ensures
        final(lines).deep_view() == old(lines).deep_view() + separator(last, depth),
{
    match last {
        None => {
            assert(old(lines).deep_view() + seq![] =~= old(lines).deep_view());
        },
        Some(d) => {
            let shared = if d < depth {
                d
            } else {
                depth
            };
            if depth <= d || shared > 0 {
                let mut r: Vec<char> = Vec::new();
                push_rails(&mut r, shared);
                assert(r@ =~= rails(shared as nat));
                lines.push(line_of(&r, None));
                assert(lines.deep_view() =~= old(lines).deep_view() + seq![(rails(shared as nat), None::<usize>)]);
            } else {
                assert(old(lines).deep_view() + seq![] =~= old(lines).deep_view());
            }
        },
    }
}

/// The lines of a comment thread on lines `width` characters wide: the
/// comments that `collapsed` leaves shown, each with its author line and
/// text, wrapped and drawn with tree rails, `selected` marked.
pub fn comment_text_lines(
    comments: &[Comment],
    collapsed: &HashSet<usize>,
    selected: Option<usize>,
    width: usize,
) -> (r: Vec<CommentLine>)
    ensures
        r.deep_view() == comment_lines(comments@, collapsed@, selected, width as int),
{
    let width = if width < 1 {
        1
    } else {
        width
    };
    let mut lines: Vec<CommentLine> = Vec::new();
    if comments.len() == 0 {
        let t = chars_of("No comments.");
        lines.push(line_of(&t, None));
        assert(lines.deep_view() =~= seq![("No comments."@, None::<usize>)]);
        return lines;
    }
    let ghost total = layout_from(comments@, collapsed@, selected, width as int, 0, None);
    let mut index: usize = 0;
    let mut last: Option<usize> = None;
    while index < comments.len()
        invariant
            index <= comments.len(),
            width >= 1,
            lines.deep_view() + layout_from(comments@, collapsed@, selected, width as int, index as int, last) == total,
        decreases comments.len() - index,
    {
        let ghost before = lines.deep_view();
        let ghost at = index;
        let ghost last0 = last;
        let comment = &comments[index];
        proof {
            lemma_deeper_run(comments@, index + 1, comment.depth);
        }
        let hidden = comment_descendant_count(comments, index);
        let is_collapsed = collapsed.contains(&index);
        push_separator(&mut lines, last, comment.depth);
        let starts_branch = match last {
            None => true,
            Some(d) => d < comment.depth,
        };
        let (ap, tp) = prefix_chars(comment.depth, starts_branch);
        let author_prefix = if selected == Some(index) {
            selected_prefix_chars(comment.depth)
        } else {
            ap
        };
        let author = author_label_chars(comment.author.as_str(), hidden, is_collapsed);
        push_wrapped_chars(&mut lines, Some(index), &author_prefix, &author, width);
        let body = if is_collapsed {
            collapsed_note_chars(hidden)
        } else {
            let tc = chars_of(comment.text.as_str());
            clean_comment_chars(&tc)
        };
        push_wrapped_chars(&mut lines, Some(index), &tp, &body, width);
        last = Some(comment.depth);
        if is_collapsed {
            index = index + hidden + 1;
        } else {
            index = index + 1;
        }
        proof {
            let c = comments@[at as int];
            assert(layout_from(comments@, collapsed@, selected, width as int, at as int, last0)
                == separator(last0, c.depth) + wrapped(author_prefix@, author@, width as int, Some(at))
                + wrapped(tp@, body@, width as int, Some(at))
                + layout_from(comments@, collapsed@, selected, width as int, index as int, last));
            assert(lines.deep_view() + layout_from(comments@, collapsed@, selected, width as int, index as int, last)
                =~= before + layout_from(comments@, collapsed@, selected, width as int, at as int, last0));
        }
    }
    assert(lines.deep_view() + seq![] =~= lines.deep_view());
    lines
}


// ---------------------------------------------------------------------------
// Scrolling
// ---------------------------------------------------------------------------

/// The first line from `i` on that `owner` owns.
pub open spec fn first_owned_from(lines: Seq<LineView>, owner: usize, i: int) -> Option<int>
    decreases lines.len() - i,
{
    if i < 0 || i >= lines.len() {
        None
    } else if lines[i].1 == Some(owner) {
        Some(i)
    } else {
        first_owned_from(lines, owner, i + 1)
    }
}

/// The last line below `i` that `owner` owns.
pub open spec fn last_owned_below(lines: Seq<LineView>, owner: usize, i: int) -> Option<int>
    decreases i,
{
    if i <= 0 || i > lines.len() {
        None
    } else if lines[i - 1].1 == Some(owner) {
        Some(i - 1)
    } else {
        last_owned_below(lines, owner, i - 1)
    }
}

/// The first and last lines that comment `owner` owns.
pub open spec fn owner_range(lines: Seq<LineView>, owner: usize) -> Option<(int, int)> {
    match (first_owned_from(lines, owner, 0), last_owned_below(lines, owner, lines.len() as int)) {
        (Some(a), Some(b)) => Some((a, b)),
        _ => None,
    }
}

pub proof fn lemma_first_owned_from(lines: Seq<LineView>, owner: usize, i: int)
    requires
        0 <= i,
    ensures
        match first_owned_from(lines, owner, i) {
            Some(k) => i <= k < lines.len() && lines[k].1 == Some(owner) && forall|j: int|
                i <= j < k ==> #[trigger] lines[j].1 != Some(owner),
            None => forall|j: int| i <= j < lines.len() ==> #[trigger] lines[j].1 != Some(owner),
        },
    decreases lines.len() - i,
{
    if i < lines.len() && lines[i].1 != Some(owner) {
        lemma_first_owned_from(lines, owner, i + 1);
    }
}

pub proof fn lemma_last_owned_below(lines: Seq<LineView>, owner: usize, i: int)
    requires
        i <= lines.len(),
    ensures
        match last_owned_below(lines, owner, i) {
            Some(k) => 0 <= k < i && lines[k].1 == Some(owner) && forall|j: int|
                k < j < i ==> #[trigger] lines[j].1 != Some(owner),
            None => forall|j: int| 0 <= j < i ==> #[trigger] lines[j].1 != Some(owner),
        },
    decreases i,
{
    if i > 0 && lines[i - 1].1 != Some(owner) {
        lemma_last_owned_below(lines, owner, i - 1);
    }
}

pub proof fn lemma_owner_range(lines: Seq<LineView>, owner: usize)
    ensures
        match owner_range(lines, owner) {
            Some((a, b)) => 0 <= a <= b < lines.len() && lines[a].1 == Some(owner)
                && lines[b].1 == Some(owner) && (forall|j: int|
                0 <= j < a ==> #[trigger] lines[j].1 != Some(owner)) && (forall|j: int|
                b < j < lines.len() ==> #[trigger] lines[j].1 != Some(owner)),
            None => forall|j: int| 0 <= j < lines.len() ==> #[trigger] lines[j].1 != Some(owner),
        },
{
    lemma_first_owned_from(lines, owner, 0);
    lemma_last_owned_below(lines, owner, lines.len() as int);
}

/// The first and last lines that comment `owner` owns, if it owns any.
pub fn owner_line_range(lines: &[CommentLine], owner: usize) -> (r: Option<(usize, usize)>)
    ensures
        match r {
            Some((a, b)) => owner_range(lines.deep_view(), owner) == Some((a as int, b as int)),
            None => owner_range(lines.deep_view(), owner) is None,
        },
{
    let ghost lv = lines.deep_view();
    let mut i: usize = 0;
    while i < lines.len() && lines[i].owner != Some(owner)
        invariant
            i <= lines.len(),
            lv == lines.deep_view(),
            first_owned_from(lv, owner, 0) == first_owned_from(lv, owner, i as int),
        decreases lines.len() - i,
    {
        assert(lv[i as int] == lines@[i as int]@);
        i = i + 1;
    }
    if i == lines.len() {
        return None;
    }
    assert(lv[i as int] == lines@[i as int]@);
    let mut j: usize = lines.len();
    while j > 0 && lines[j - 1].owner != Some(owner)
        invariant
            j <= lines.len(),
            lv == lines.deep_view(),
            last_owned_below(lv, owner, lv.len() as int) == last_owned_below(lv, owner, j as int),
        decreases j,
    {
        assert(lv[j - 1] == lines@[j - 1]@);
        j = j - 1;
    }
    if j == 0 {
        return None;
    }
    assert(lv[j - 1] == lines@[j - 1]@);
    Some((i, j - 1))
}

/// The scroll position that shows comment `selected` in a viewport of
/// `viewport_height` lines (at least one), starting from `current_scroll`
/// and never beyond `max_scroll`: a comment taller than the viewport, or
/// one above it, is shown from its first line; one below it is shown down
/// to its last line; otherwise the position stays.
pub open spec fn scroll_target(
    lines: Seq<LineView>,
    selected: usize,
    current_scroll: int,
    viewport_height: int,
    max_scroll: int,
) -> int {
    let cap = |x: int|
        if x < max_scroll {
            x
        } else {
            max_scroll
        };
    match owner_range(lines, selected) {
        None => cap(current_scroll),
        Some((first, last)) => {
            let vh = if viewport_height < 1 {
                1
            } else {
                viewport_height
            };
            if last - first + 1 > vh || first < current_scroll {
                cap(first)
            } else if last >= current_scroll + vh {
                cap(
                    if last - (vh - 1) > 0 {
                        last - (vh - 1)
                    } else {
                        0
                    },
                )
            } else {
                cap(current_scroll)
            }
        },
    }
}

/// The scroll position that brings comment `selected` into view.
pub fn scroll_to_show_comment(
    lines: &[CommentLine],
    selected: usize,
    current_scroll: usize,
    viewport_height: usize,
    max_scroll: usize,
) -> (r: usize)
    ensures
        r == scroll_target(
            lines.deep_view(),
            selected,
            current_scroll as int,
            viewport_height as int,
            max_scroll as int,
        ),
{
    proof {
        lemma_owner_range(lines.deep_view(), selected);
    }
    let (first, last) = match owner_line_range(lines, selected) {
        Some(p) => p,
        None => {
            return if current_scroll < max_scroll {
                current_scroll
            } else {
                max_scroll
            };
        },
    };
    let vh = if viewport_height < 1 {
        1
    } else {
        viewport_height
    };
    let target = if last - first >= vh || first < current_scroll {
        first
    } else if last - current_scroll >= vh {
        if last - (vh - 1) > 0 {
            last - (vh - 1)
        } else {
            0
        }
    } else {
        current_scroll
    };
    if target < max_scroll {
        target
    } else {
        max_scroll
    }
}


/// `text` split after its first `count` characters (or whole, when shorter).
pub fn split_at_char_count(text: &str, count: usize) -> (r: (&str, &str))
    ensures
        count <= text@.len() ==> r.0@ == text@.subrange(0, count as int) && r.1@ == text@.subrange(count as int, text@.len() as int),
        count > text@.len() ==> r.0@ == text@ && r.1@.len() == 0,
{
    let n = text.unicode_len();
    let k = if count < n {
        count
    } else {
        n
    };
    let head = text.substring_char(0, k);
    let tail = text.substring_char(k, n);
    proof {
        if count > text@.len() {
            assert(text@.subrange(0, n as int) =~= text@);
        }
    }
    (head, tail)
}


// ---------------------------------------------------------------------------
// Heights of wrapped paragraphs
// ---------------------------------------------------------------------------

/// Rows taken and room used on the last row after placing word `w`: a word
/// goes on the current row after a space when it fits, else it starts a new
/// row; a word longer than a row fills whole rows.
pub open spec fn place_word(st: (int, int), w: Seq<char>, width: int) -> (int, int) {
    let (rows, used) = st;
    let ww = w.len() as int;
    let over = if ww > 0 {
        ww - 1
    } else {
        0
    };
    if used == 0 {
        (rows + over / width, over % width + 1)
    } else if used + 1 + ww <= width {
        (rows, used + 1 + ww)
    } else {
        (rows + 1 + over / width, over % width + 1)
    }
}

/// The rows and room used after placing the first `n` words of `ws`.
pub open spec fn place_words(ws: Seq<Seq<char>>, n: int, width: int) -> (int, int)
    decreases n,
{
    if n <= 0 {
        (1, 0)
    } else {
        place_word(place_words(ws, n - 1, width), ws[n - 1], width)
    }
}

/// How many rows `text` takes when its words are wrapped into rows `width`
/// characters wide (one row for text without words), at most `usize::MAX`.
pub open spec fn rows_needed(text: Seq<char>, width: int) -> int {
    let ws = crate::chars::words(text);
    let rows = if ws.len() == 0 {
        1
    } else {
        place_words(ws, ws.len() as int, width).0
    };
    if rows < usize::MAX {
        rows
    } else {
        usize::MAX as int
    }
}

pub proof fn lemma_place_words(ws: Seq<Seq<char>>, n: int, width: int)
    requires
        width >= 1,
        0 <= n <= ws.len(),
    ensures
        place_words(ws, n, width).0 >= 1,
        0 <= place_words(ws, n, width).1 <= width,
        n > 0 ==> place_words(ws, n, width).1 >= 1,
    decreases n,
{
    if n > 0 {
        lemma_place_words(ws, n - 1, width);
        let ww = ws[n - 1].len() as int;
        let over = if ww > 0 {
            ww - 1
        } else {
            0
        };
        assert(over / width >= 0 && 0 <= over % width < width) by (nonlinear_arith)
            requires
                width >= 1,
                over >= 0,
        ;
    }
}

/// How many rows `text` takes when wrapped by words into rows `width` wide.
pub fn wrapped_line_count(text: &str, width: usize) -> (r: usize)
    requires
        width >= 1,
    ensures
        r == rows_needed(text@, width as int),
{
    let cs = chars_of(text);
    let ws = crate::chars::words_exec(&cs);
    if ws.len() == 0 {
        return 1;
    }
    let mut rows: usize = 1;
    let mut used: usize = 0;
    let mut i: usize = 0;
    let ghost wv = ws.deep_view();
    while i < ws.len()
        invariant
            i <= ws.len(),
            width >= 1,
            wv == ws.deep_view(),
            wv == crate::chars::words(text@),
            used as int == place_words(wv, i as int, width as int).1,
            rows as int == (if place_words(wv, i as int, width as int).0 < usize::MAX {
                place_words(wv, i as int, width as int).0
            } else {
                usize::MAX as int
            }),
        decreases ws.len() - i,
    {
        proof {
            lemma_place_words(wv, i as int, width as int);
        }
        let ww = ws[i].len();
        assert(wv[i as int] == ws@[i as int]@);
        let over = if ww > 0 {
            ww - 1
        } else {
            0
        };
        if used == 0 {
            rows = rows.saturating_add(over / width);
            used = over % width + 1;
        } else if ww < width - used {
            used = used + 1 + ww;
        } else {
            rows = rows.saturating_add(1).saturating_add(over / width);
            used = over % width + 1;
        }
        i = i + 1;
    }
    rows
}

/// How many rows a block of `lines` takes inside a border on a pane `width`
/// wide: each line wrapped by words into the width left inside the border
/// (at least one), plus the two border rows, at most `u16::MAX`.
pub open spec fn block_height(lines: Seq<Seq<char>>, width: u16) -> int {
    let inner: int = if width >= 3 {
        width - 2
    } else {
        1
    };
    let total = lines_rows(lines, inner);
    if total + 2 < u16::MAX {
        total + 2
    } else {
        u16::MAX as int
    }
}

/// The rows all of `lines` take, each capped as `rows_needed` caps it, the
/// sum capped at `usize::MAX`.
pub open spec fn lines_rows(lines: Seq<Seq<char>>, width: int) -> int
    decreases lines.len(),
{
    if lines.len() == 0 {
        0
    } else {
        let s = lines_rows(lines.drop_last(), width) + rows_needed(lines.last(), width);
        if s < usize::MAX {
            s
        } else {
            usize::MAX as int
        }
    }
}

/// How many rows a bordered block of `lines` takes on a pane `width` wide.
pub fn wrapped_header_height(lines: &[String], width: u16) -> (r: u16)
    ensures
        r == block_height(lines.deep_view(), width),
{
    let inner: usize = if width >= 3 {
        (width - 2) as usize
    } else {
        1
    };
    let mut total: usize = 0;
    let mut i: usize = 0;
    while i < lines.len()
        invariant
            i <= lines.len(),
            inner >= 1,
            inner as int == (if width >= 3 {
                width - 2
            } else {
                1
            }),
            total as int == lines_rows(lines.deep_view().subrange(0, i as int), inner as int),
        decreases lines.len() - i,
    {
        assert(lines.deep_view().subrange(0, i + 1).drop_last() =~= lines.deep_view().subrange(0, i as int));
        assert(lines.deep_view().subrange(0, i + 1).last() == lines@[i as int]@);
        let n = wrapped_line_count(lines[i].as_str(), inner);
        total = total.saturating_add(n);
        i = i + 1;
    }
    assert(lines.deep_view().subrange(0, lines@.len() as int) =~= lines.deep_view());
    let h = total.saturating_add(2);
    if h < 65535 {
        h as u16
    } else {
        65535
    }
}

} // verus!
