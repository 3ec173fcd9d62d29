//! Unix file paths as byte strings: what a path means, and how paths are cut and joined.
use vstd::prelude::*;

verus! {

/// The byte that separates the components of a path.
pub const SLASH: u8 = 47;

/// The byte `.`, which stands alone in the component "." and twice in "..".
pub const DOT: u8 = 46;

/// One component of a path.
pub enum Part {
    /// The leading slash of an absolute path.
    RootDir,
    /// A "." at the very start of a relative path.
    CurDir,
    /// A "..".
    ParentDir,
    /// The name of a file or directory.
    Normal(Seq<u8>),
}

/// Where the first piece of `b` ends: the index of the first slash, or the length of `b`.
pub open spec fn piece_end(b: Seq<u8>) -> nat
    decreases b.len(),
{
    if b.len() == 0 || b[0] == SLASH {
        0
    } else {
        1 + piece_end(b.skip(1))
    }
}

/// The first piece of `b`: what stands before the first slash.
pub open spec fn first_piece(b: Seq<u8>) -> Seq<u8> {
    b.take(piece_end(b) as int)
}

/// What follows the first piece of `b` and the slash behind it.
pub open spec fn after_piece(b: Seq<u8>) -> Seq<u8> {
    if piece_end(b) < b.len() {
        b.skip(piece_end(b) as int + 1)
    } else {
        Seq::empty()
    }
}

/// Whether a piece says nothing: it is empty or ".".
pub open spec fn is_silent(piece: Seq<u8>) -> bool {
    piece.len() == 0 || (piece.len() == 1 && piece[0] == DOT)
}

/// The component that a piece stands for, where it is not silent.
pub open spec fn piece_part(piece: Seq<u8>) -> Part {
    if piece.len() == 2 && piece[0] == DOT && piece[1] == DOT {
        Part::ParentDir
    } else {
        Part::Normal(piece)
    }
}

/// The components that a piece gives: none where it is silent, else one.
pub open spec fn piece_parts(piece: Seq<u8>) -> Seq<Part> {
    if is_silent(piece) {
        Seq::empty()
    } else {
        seq![piece_part(piece)]
    }
}

/// The components of `b` but for a leading root or current directory: the pieces between
/// the slashes, without the silent ones.
pub open spec fn body_parts(b: Seq<u8>) -> Seq<Part>
    decreases b.len(),
{
    if b.len() == 0 {
        Seq::empty()
    } else {
        piece_parts(first_piece(b)) + body_parts(after_piece(b))
    }
}

/// Whether `b` is an absolute path.
pub open spec fn is_rooted(b: Seq<u8>) -> bool {
    b.len() > 0 && b[0] == SLASH
}

/// Whether `b` starts with the current directory: it is "." or starts with "./".
pub open spec fn starts_with_dot(b: Seq<u8>) -> bool {
    b.len() > 0 && b[0] == DOT && (b.len() == 1 || b[1] == SLASH)
}

/// The component that a leading slash or a leading "." gives.
pub open spec fn lead_parts(b: Seq<u8>) -> Seq<Part> {
    if is_rooted(b) {
        seq![Part::RootDir]
    } else if starts_with_dot(b) {
        seq![Part::CurDir]
    } else {
        Seq::empty()
    }
}

/// How many bytes the leading slash or the leading "." takes.
pub open spec fn lead_len(b: Seq<u8>) -> int {
    if is_rooted(b) || starts_with_dot(b) {
        1
    } else {
        0
    }
}

/// The components of the path `b`. Repeated slashes, a slash at the end, and each "." but a
/// leading one give no component. Two spellings name the same path where their components
/// are equal.
pub open spec fn parts(b: Seq<u8>) -> Seq<Part> {
    lead_parts(b) + body_parts(b)
}

/// `b` without the slashes and the "." pieces at its end.
pub open spec fn trim_end(b: Seq<u8>) -> Seq<u8>
    decreases b.len(),
{
    if b.len() == 0 {
        b
    } else if b.last() == SLASH {
        trim_end(b.drop_last())
    } else if b.last() == DOT && (b.len() == 1 || b[b.len() - 2] == SLASH) {
        trim_end(b.drop_last())
    } else {
        b
    }
}

/// What is left of `b` once `n` of its pieces have been passed, silent ones not counted,
/// and the silent pieces behind them.
pub open spec fn skip_pieces(b: Seq<u8>, n: nat) -> Seq<u8>
    decreases b.len(),
{
    if b.len() == 0 {
        b
    } else if is_silent(first_piece(b)) {
        skip_pieces(after_piece(b), n)
    } else if n == 0 {
        b
    } else {
        skip_pieces(after_piece(b), (n - 1) as nat)
    }
}

/// `b` without the silent pieces at its end, its leading slash or "." kept.
pub open spec fn tidy(b: Seq<u8>) -> Seq<u8> {
    b.take(lead_len(b)) + trim_end(b.skip(lead_len(b)))
}

/// Whether `base` is a prefix of `b`, component by component.
pub open spec fn is_under(b: Seq<u8>, base: Seq<u8>) -> bool {
    parts(base).is_prefix_of(parts(b))
}

/// What is left of `b` behind its prefix `base`: a relative path.
pub open spec fn relative_to(b: Seq<u8>, base: Seq<u8>) -> Seq<u8> {
    if base.len() == 0 {
        tidy(b)
    } else {
        trim_end(skip_pieces(b, (parts(base).len() - lead_parts(b).len()) as nat))
    }
}

/// The path `rel` taken from the directory `b`. An absolute `rel` stands for itself.
pub open spec fn joined(b: Seq<u8>, rel: Seq<u8>) -> Seq<u8> {
    if is_rooted(rel) {
        rel
    } else if b.len() == 0 || b.last() == SLASH {
        b + rel
    } else {
        b.push(SLASH) + rel
    }
}

/// The name of the file that `b` leads to, if its last component is a name.
pub open spec fn name_of(b: Seq<u8>) -> Option<Seq<u8>> {
    if parts(b).len() == 0 {
        None
    } else {
        match parts(b).last() {
            Part::Normal(name) => Some(name),
            _ => None,
        }
    }
}

/// Where the last piece of `b` starts: behind the last slash, or at 0.
pub open spec fn last_piece_start(b: Seq<u8>) -> nat
    decreases b.len(),
{
    if b.len() == 0 || b.last() == SLASH {
        b.len()
    } else {
        last_piece_start(b.drop_last())
    }
}

/// `b` without its last piece and the slash before it.
pub open spec fn before_last_piece(b: Seq<u8>) -> Seq<u8> {
    if last_piece_start(b) == 0 {
        Seq::empty()
    } else {
        b.take(last_piece_start(b) - 1)
    }
}

/// The path without its last component, if it has one that is not the root.
pub open spec fn parent_of(b: Seq<u8>) -> Option<Seq<u8>> {
    let body = trim_end(b.skip(lead_len(b)));
    if body.len() > 0 {
        Some(b.take(lead_len(b)) + trim_end(before_last_piece(body)))
    } else if starts_with_dot(b) {
        Some(Seq::empty())
    } else {
        None
    }
}

/// The path `b` with its file name, if it has one, replaced by `name`.
pub open spec fn renamed(b: Seq<u8>, name: Seq<u8>) -> Seq<u8> {
    match (name_of(b), parent_of(b)) {
        (Some(_), Some(dir)) => joined(dir, name),
        _ => joined(b, name),
    }
}

/// The first piece ends at `i` where no slash stands before `i` and a slash or nothing at `i`.
pub proof fn lemma_piece_end_at(b: Seq<u8>, i: int)
    requires
        0 <= i <= b.len(),
        forall|j: int| 0 <= j < i ==> b[j] != SLASH,
        i < b.len() ==> b[i] == SLASH,
    ensures
        piece_end(b) == i,
    decreases i,
{
    if i > 0 {
        assert(forall|j: int| 0 <= j < i - 1 ==> b.skip(1)[j] == b[j + 1]);
        lemma_piece_end_at(b.skip(1), i - 1);
    }
}

/// The first piece ends at the first slash.
pub proof fn lemma_piece_end(b: Seq<u8>)
    ensures
        piece_end(b) <= b.len(),
        forall|j: int| 0 <= j < piece_end(b) ==> b[j] != SLASH,
        piece_end(b) < b.len() ==> b[piece_end(b) as int] == SLASH,
    decreases b.len(),
{
    if b.len() > 0 && b[0] != SLASH {
        lemma_piece_end(b.skip(1));
        assert forall|j: int| 0 <= j < piece_end(b) implies b[j] != SLASH by {
            if j > 0 {
                assert(b[j] == b.skip(1)[j - 1]);
            }
        }
    }
}

/// A slash divides the components: those before it come first, then those behind it.
pub proof fn lemma_body_concat(a: Seq<u8>, c: Seq<u8>)
    ensures
        body_parts(a.push(SLASH) + c) == body_parts(a) + body_parts(c),
    decreases a.len(),
{
    let s = a.push(SLASH) + c;
    lemma_piece_end(a);
    let n = piece_end(a) as int;
    assert(forall|j: int| 0 <= j < a.len() ==> s[j] == a[j]);
    assert(s[a.len() as int] == SLASH);
    lemma_piece_end_at(s, n);
    assert(first_piece(s) =~= first_piece(a));
    if n < a.len() {
        assert(after_piece(s) =~= after_piece(a).push(SLASH) + c);
        lemma_body_concat(after_piece(a), c);
        assert(body_parts(s) =~= body_parts(a) + body_parts(c));
    } else {
        assert(after_piece(s) =~= c);
        assert(body_parts(after_piece(a)) =~= Seq::empty());
        assert(first_piece(a) =~= a);
        if a.len() == 0 {
            assert(piece_parts(first_piece(a)) =~= Seq::empty());
        }
        assert(body_parts(s) =~= body_parts(a) + body_parts(c));
    }
}

/// A byte string without a slash is one piece.
pub proof fn lemma_body_of_piece(p: Seq<u8>)
    requires
        forall|j: int| 0 <= j < p.len() ==> p[j] != SLASH,
    ensures
        body_parts(p) == piece_parts(p),
{
    lemma_piece_end_at(p, p.len() as int);
    assert(first_piece(p) =~= p);
    assert(body_parts(after_piece(p)) =~= Seq::empty());
    assert(body_parts(p) =~= piece_parts(p));
}

/// A slash at the end gives no component.
pub proof fn lemma_body_trailing_slash(a: Seq<u8>)
    ensures
        body_parts(a.push(SLASH)) == body_parts(a),
{
    lemma_body_concat(a, Seq::empty());
    assert(a.push(SLASH) + Seq::<u8>::empty() =~= a.push(SLASH));
    assert(body_parts(a) + body_parts(Seq::<u8>::empty()) =~= body_parts(a));
}

/// A slash at the start gives no component of the body.
pub proof fn lemma_body_leading_slash(c: Seq<u8>)
    ensures
        body_parts(seq![SLASH] + c) == body_parts(c),
{
    lemma_body_concat(Seq::empty(), c);
    assert(Seq::<u8>::empty().push(SLASH) + c =~= seq![SLASH] + c);
    assert(body_parts(Seq::<u8>::empty()) + body_parts(c) =~= body_parts(c));
}

/// A "." before a slash or the end gives no component of the body.
pub proof fn lemma_body_leading_dot(c: Seq<u8>)
    requires
        c.len() == 0 || c[0] == SLASH,
    ensures
        body_parts(seq![DOT] + c) == body_parts(c),
{
    let dot = seq![DOT];
    lemma_body_of_piece(dot);
    if c.len() == 0 {
        assert(dot + c =~= dot);
    } else {
        let rest = c.skip(1);
        assert(c =~= seq![SLASH] + rest);
        assert(dot + c =~= dot.push(SLASH) + rest);
        lemma_body_concat(dot, rest);
        lemma_body_leading_slash(rest);
        assert(body_parts(dot) + body_parts(rest) =~= body_parts(rest));
    }
}

/// The leading slash or "." of a path gives no component of the body.
pub proof fn lemma_body_behind_lead(b: Seq<u8>)
    ensures
        body_parts(b.skip(lead_len(b))) == body_parts(b),
{
    let rest = b.skip(lead_len(b));
    if is_rooted(b) {
        assert(b =~= seq![SLASH] + rest);
        lemma_body_leading_slash(rest);
    } else if starts_with_dot(b) {
        assert(b =~= seq![DOT] + rest);
        lemma_body_leading_dot(rest);
    } else {
        assert(rest =~= b);
    }
}

/// Trimming the end keeps a prefix with the same components, which ends in a piece that is
/// not silent.
pub proof fn lemma_trim_end(b: Seq<u8>)
    ensures
        trim_end(b).is_prefix_of(b),
        body_parts(trim_end(b)) == body_parts(b),
        trim_end(b).len() > 0 ==> {
            let t = trim_end(b);
            &&& t.last() != SLASH
            &&& t.last() == DOT ==> t.len() > 1 && t[t.len() - 2] != SLASH
        },
    decreases b.len(),
{
    if b.len() > 0 {
        let a = b.drop_last();
        if b.last() == SLASH {
            lemma_trim_end(a);
            assert(b =~= a.push(SLASH));
            lemma_body_trailing_slash(a);
        } else if b.last() == DOT && (b.len() == 1 || b[b.len() - 2] == SLASH) {
            lemma_trim_end(a);
            let dot = seq![DOT];
            lemma_body_of_piece(dot);
            if b.len() == 1 {
                assert(b =~= dot);
                assert(a =~= Seq::empty());
            } else {
                let c = a.drop_last();
                assert(a =~= c.push(SLASH));
                assert(b =~= c.push(SLASH) + dot);
                lemma_body_concat(c, dot);
                lemma_body_trailing_slash(c);
                assert(body_parts(c) + body_parts(dot) =~= body_parts(c));
            }
        }
    }
}

/// The last piece starts behind the last slash.
pub proof fn lemma_last_piece_start(b: Seq<u8>)
    ensures
        last_piece_start(b) <= b.len(),
        last_piece_start(b) > 0 ==> b[last_piece_start(b) - 1] == SLASH,
        forall|j: int| last_piece_start(b) <= j < b.len() ==> b[j] != SLASH,
    decreases b.len(),
{
    if b.len() > 0 && b.last() != SLASH {
        let a = b.drop_last();
        lemma_last_piece_start(a);
        assert forall|j: int| last_piece_start(b) <= j < b.len() implies b[j] != SLASH by {
            if j < a.len() {
                assert(b[j] == a[j]);
            }
        }
    }
}

/// The last piece gives the last component.
pub proof fn lemma_body_last_piece(b: Seq<u8>)
    ensures
        body_parts(b) == body_parts(before_last_piece(b)) + piece_parts(
            b.skip(last_piece_start(b) as int),
        ),
{
    lemma_last_piece_start(b);
    let n = last_piece_start(b) as int;
    let p = b.skip(n);
    assert forall|j: int| 0 <= j < p.len() implies p[j] != SLASH by {
        assert(p[j] == b[n + j]);
    }
    lemma_body_of_piece(p);
    if n == 0 {
        assert(p =~= b);
        assert(body_parts(Seq::<u8>::empty()) + piece_parts(p) =~= piece_parts(p));
    } else {
        let a = before_last_piece(b);
        assert(b =~= a.push(SLASH) + p);
        lemma_body_concat(a, p);
    }
}

/// A path that keeps the lead of `b` and goes on with the start `x` of what follows it has
/// the lead of `b` and the components of `x`.
pub proof fn lemma_parts_with_lead(b: Seq<u8>, x: Seq<u8>)
    requires
        x.is_prefix_of(b.skip(lead_len(b))),
        x.len() == 1 ==> x[0] != DOT,
    ensures
        parts(b.take(lead_len(b)) + x) == lead_parts(b) + body_parts(x),
{
    let r = b.take(lead_len(b)) + x;
    assert(forall|j: int| 0 <= j < x.len() ==> x[j] == b.skip(lead_len(b))[j]);
    if is_rooted(b) {
        assert(r =~= seq![SLASH] + x);
        lemma_body_leading_slash(x);
    } else if starts_with_dot(b) {
        assert(r =~= seq![DOT] + x);
        lemma_body_leading_dot(x);
    } else {
        assert(r =~= x);
    }
}

/// The components of a joined path.
pub proof fn lemma_joined(b: Seq<u8>, rel: Seq<u8>)
    requires
        !is_rooted(rel),
    ensures
        b.len() == 0 ==> joined(b, rel) == rel,
        b.len() > 0 ==> parts(joined(b, rel)) == parts(b) + body_parts(rel),
{
    let r = joined(b, rel);
    if b.len() == 0 {
        assert(r =~= rel);
    } else if b.last() == SLASH {
        let a = b.drop_last();
        assert(b =~= a.push(SLASH));
        lemma_body_concat(a, rel);
        lemma_body_trailing_slash(a);
        assert(forall|j: int| 0 <= j < b.len() ==> r[j] == b[j]);
        assert(lead_parts(r) == lead_parts(b));
        assert(parts(r) =~= parts(b) + body_parts(rel));
    } else {
        lemma_body_concat(b, rel);
        assert(forall|j: int| 0 <= j < b.len() ==> r[j] == b[j]);
        assert(r[b.len() as int] == SLASH);
        assert(lead_parts(r) == lead_parts(b));
        assert(parts(r) =~= parts(b) + body_parts(rel));
    }
}

/// Passing pieces passes components.
pub proof fn lemma_skip_pieces(b: Seq<u8>, n: nat)
    requires
        n <= body_parts(b).len(),
    ensures
        body_parts(skip_pieces(b, n)) == body_parts(b).skip(n as int),
        skip_pieces(b, n).len() > 0 ==> !is_silent(first_piece(skip_pieces(b, n))),
    decreases b.len(),
{
    if b.len() > 0 {
        lemma_piece_end(b);
        let rest = after_piece(b);
        if is_silent(first_piece(b)) {
            assert(body_parts(b) =~= body_parts(rest));
            lemma_skip_pieces(rest, n);
        } else if n == 0 {
            assert(body_parts(b).skip(0) =~= body_parts(b));
        } else {
            lemma_skip_pieces(rest, (n - 1) as nat);
            assert(body_parts(b).skip(n as int) =~= body_parts(rest).skip(n - 1));
        }
    } else {
        assert(body_parts(b).skip(0) =~= body_parts(b));
    }
}

/// Only the empty path has no components.
pub proof fn lemma_parts_empty(b: Seq<u8>)
    ensures
        parts(b).len() == 0 <==> b.len() == 0,
{
    if b.len() > 0 && lead_parts(b).len() == 0 {
        lemma_piece_end(b);
        let p = first_piece(b);
        if is_silent(p) {
            assert(p[0] == b[0]);
        }
        assert(parts(b).len() >= piece_parts(p).len());
    }
}

/// Tidying a path keeps its components.
pub proof fn lemma_tidy(b: Seq<u8>)
    ensures
        parts(tidy(b)) == parts(b),
        tidy(b).len() == 0 <==> b.len() == 0,
{
    let body = b.skip(lead_len(b));
    lemma_trim_end(body);
    lemma_parts_with_lead(b, trim_end(body));
    lemma_body_behind_lead(b);
    lemma_parts_empty(b);
    lemma_parts_empty(tidy(b));
}

/// What is left behind a prefix is a relative path that holds the remaining components.
pub proof fn lemma_relative_to(b: Seq<u8>, base: Seq<u8>)
    requires
        is_under(b, base),
        base.len() > 0,
    ensures
        !is_rooted(relative_to(b, base)),
        !starts_with_dot(relative_to(b, base)),
        body_parts(relative_to(b, base)) == parts(b).skip(parts(base).len() as int),
{
    lemma_parts_empty(base);
    let lead = lead_parts(b).len();
    assert(parts(base)[0] == parts(b)[0]);
    let n = (parts(base).len() - lead) as nat;
    let s = skip_pieces(b, n);
    lemma_skip_pieces(b, n);
    lemma_trim_end(s);
    let r = trim_end(s);
    assert(parts(b).skip(parts(base).len() as int) =~= body_parts(b).skip(n as int));
    if r.len() > 0 {
        assert(r[0] == s[0]);
        lemma_piece_end(s);
        let p = first_piece(s);
        if is_rooted(r) {
            assert(p =~= Seq::empty());
        }
        if starts_with_dot(r) && r.len() > 1 {
            assert(r[1] == s[1]);
            lemma_piece_end_at(s, 1);
            assert(p[0] == DOT);
        }
    }
}

/// Cutting a prefix off a path and joining the rest onto it again leads to the same path.
pub proof fn lemma_relative_to_joined(b: Seq<u8>, base: Seq<u8>)
    requires
        is_under(b, base),
    ensures
        parts(joined(base, relative_to(b, base))) == parts(b),
{
    let rel = relative_to(b, base);
    if base.len() == 0 {
        lemma_tidy(b);
        if !is_rooted(rel) {
            lemma_joined(base, rel);
        }
    } else {
        lemma_relative_to(b, base);
        lemma_joined(base, rel);
        let n = parts(base).len() as int;
        assert(parts(b).take(n) =~= parts(base));
        assert(parts(b) =~= parts(b).take(n) + parts(b).skip(n));
    }
}

/// A path has a parent unless it is empty or the root, and the parent lacks exactly the last
/// component.
pub proof fn lemma_parent(b: Seq<u8>)
    ensures
        parent_of(b) is None <==> parts(b).len() == 0 || parts(b).last() is RootDir,
        parent_of(b) matches Some(dir) ==> dir.is_prefix_of(b) && parts(dir) == parts(
            b,
        ).drop_last(),
{
    let rest = b.skip(lead_len(b));
    lemma_body_behind_lead(b);
    lemma_trim_end(rest);
    let body = trim_end(rest);
    lemma_parts_empty(b);
    if body.len() > 0 {
        lemma_last_piece_start(body);
        lemma_body_last_piece(body);
        let p = body.skip(last_piece_start(body) as int);
        assert(p.last() == body.last());
        assert(!is_silent(p)) by {
            if p.len() == 1 && body.len() > 1 {
                assert(last_piece_start(body) == body.len() - 1);
            }
        }
        let before = before_last_piece(body);
        lemma_trim_end(before);
        let x = trim_end(before);
        let dir = b.take(lead_len(b)) + x;
        assert(x.is_prefix_of(rest));
        lemma_parts_with_lead(b, x);
        assert(dir.is_prefix_of(b)) by {
            assert(forall|j: int| 0 <= j < x.len() ==> x[j] == rest[j]);
            assert(dir =~= b.take(dir.len() as int));
        }
        assert(parts(b) =~= parts(dir).push(piece_part(p)));
    } else {
        assert(body =~= Seq::empty());
        assert(body_parts(b) =~= Seq::empty());
        if starts_with_dot(b) {
            assert(parts(b) =~= seq![Part::CurDir]);
            assert(parts(Seq::<u8>::empty()) =~= parts(b).drop_last());
        }
    }
}

/// A file name, put behind a directory, gives the components of the directory and the name.
pub proof fn lemma_joined_name(dir: Seq<u8>, name: Seq<u8>)
    requires
        !name.contains(SLASH),
        !is_silent(name),
        piece_part(name) is Normal,
    ensures
        parts(joined(dir, name)) == parts(dir).push(Part::Normal(name)),
{
    assert forall|j: int| 0 <= j < name.len() implies name[j] != SLASH by {
        assert(name.contains(name[j]));
    }
    lemma_body_of_piece(name);
    lemma_joined(dir, name);
    if dir.len() == 0 {
        assert(parts(name) =~= seq![Part::Normal(name)]);
        assert(parts(dir) =~= Seq::empty());
    }
    assert(parts(joined(dir, name)) =~= parts(dir).push(Part::Normal(name)));
}

/// Replacing a file name keeps the directory.
pub proof fn lemma_renamed(b: Seq<u8>, name: Seq<u8>)
    requires
        name_of(b) is Some,
        !name.contains(SLASH),
        !is_silent(name),
        piece_part(name) is Normal,
    ensures
        parts(renamed(b, name)) == parts(b).drop_last().push(Part::Normal(name)),
        name_of(renamed(b, name)) == Some(name),
{
    lemma_parent(b);
    lemma_joined_name(parent_of(b)->0, name);
}

/// A file name holds no slash and is neither empty, "." nor "..".
pub proof fn lemma_name_is_piece(b: Seq<u8>)
    ensures
        forall|i: int|
            0 <= i < body_parts(b).len() ==> match #[trigger] body_parts(b)[i] {
                Part::ParentDir => true,
                Part::Normal(name) => !name.contains(SLASH) && !is_silent(name) && piece_part(name)
                    is Normal,
                _ => false,
            },
    decreases b.len(),
{
    if b.len() > 0 {
        lemma_piece_end(b);
        lemma_name_is_piece(after_piece(b));
        let p = first_piece(b);
        assert(!p.contains(SLASH));
        let here = piece_parts(p);
        assert forall|i: int| 0 <= i < body_parts(b).len() implies match #[trigger] body_parts(
            b,
        )[i] {
            Part::ParentDir => true,
            Part::Normal(name) => !name.contains(SLASH) && !is_silent(name) && piece_part(name)
                is Normal,
            _ => false,
        } by {
            if i >= here.len() {
                assert(body_parts(b)[i] == body_parts(after_piece(b))[i - here.len()]);
            }
        }
    }
}

/// A path without a slash is one component: its name, or what "." and ".." stand for. The empty
/// path has none.
pub proof fn lemma_parts_of_piece(p: Seq<u8>)
    requires
        forall|j: int| 0 <= j < p.len() ==> p[j] != 47,
    ensures
        p.len() == 0 ==> parts(p) == Seq::<Part>::empty(),
        p == seq![46u8] ==> parts(p) == seq![Part::CurDir],
        p == seq![46u8, 46u8] ==> parts(p) == seq![Part::ParentDir],
        p.len() > 0 && p != seq![46u8] && p != seq![46u8, 46u8] ==> parts(p) == seq![
            Part::Normal(p),
        ],
{
    lemma_body_of_piece(p);
    if p.len() == 1 && p[0] == DOT {
        assert(p =~= seq![46u8]);
    }
    if p.len() == 2 && p[0] == DOT && p[1] == DOT {
        assert(p =~= seq![46u8, 46u8]);
    }
    assert(parts(p) =~= lead_parts(p) + piece_parts(p));
}

/// The components of a path but for a leading root or current directory.
pub open spec fn below_lead(ps: Seq<Part>) -> Seq<Part> {
    if ps.len() > 0 && (ps[0] is RootDir || ps[0] is CurDir) {
        ps.skip(1)
    } else {
        ps
    }
}

/// A leading root or current directory is no component of the body, and nothing else is left
/// out of it.
pub proof fn lemma_below_lead(b: Seq<u8>)
    ensures
        below_lead(parts(b)) == body_parts(b),
{
    lemma_name_is_piece(b);
    if lead_parts(b).len() > 0 {
        assert(parts(b).skip(1) =~= body_parts(b));
    } else {
        assert(parts(b) =~= body_parts(b));
        if body_parts(b).len() > 0 {
            assert(!(body_parts(b)[0] is RootDir || body_parts(b)[0] is CurDir));
        }
    }
}

/// A slash divides a path: the components before it come first, then those behind it, of which
/// a leading "." or slash does not count. A slash at the very start is the root.
pub proof fn lemma_parts_at_slash(a: Seq<u8>, c: Seq<u8>)
    ensures
        a.len() > 0 ==> parts(a.push(47u8) + c) == parts(a) + below_lead(parts(c)),
        parts(seq![47u8] + c) == seq![Part::RootDir] + below_lead(parts(c)),
{
    lemma_below_lead(c);
    lemma_body_concat(a, c);
    lemma_body_leading_slash(c);
    let s = a.push(47u8) + c;
    if a.len() > 0 {
        assert(s[0] == a[0]);
        if a.len() == 1 {
            assert(s[1] == SLASH);
        } else {
            assert(s[1] == a[1]);
        }
        assert(lead_parts(s) == lead_parts(a));
        assert(parts(s) =~= parts(a) + body_parts(c));
    }
    let t = seq![47u8] + c;
    assert(t[0] == SLASH);
    assert(parts(t) =~= seq![Part::RootDir] + body_parts(c));
}

/// One path lies under another where it starts with the components of that other.
pub proof fn lemma_is_under(b: Seq<u8>, base: Seq<u8>)
    ensures
        is_under(b, base) <==> parts(base).len() <= parts(b).len() && forall|i: int|
            0 <= i < parts(base).len() ==> #[trigger] parts(base)[i] == parts(b)[i],
{
    if is_under(b, base) {
        assert forall|i: int| 0 <= i < parts(base).len() implies #[trigger] parts(base)[i]
            == parts(b)[i] by {
            assert(parts(b).subrange(0, parts(base).len() as int)[i] == parts(b)[i]);
        }
    } else if parts(base).len() <= parts(b).len() && forall|i: int|
        0 <= i < parts(base).len() ==> #[trigger] parts(base)[i] == parts(b)[i] {
        assert(parts(base) =~= parts(b).subrange(0, parts(base).len() as int));
    }
}

/// What is left behind a prefix are the components behind it.
pub proof fn lemma_relative_parts(b: Seq<u8>, base: Seq<u8>)
    requires
        parts(base).is_prefix_of(parts(b)),
    ensures
        parts(relative_to(b, base)) == parts(b).skip(parts(base).len() as int),
{
    let rel = relative_to(b, base);
    lemma_parts_empty(base);
    if base.len() == 0 {
        lemma_tidy(b);
        assert(parts(b).skip(0) =~= parts(b));
    } else {
        lemma_relative_to(b, base);
        assert(parts(rel) =~= body_parts(rel));
    }
}

/// An absolute path, or one that is joined to nothing, stays as it is. Otherwise the components
/// of the second path, but for a leading ".", follow those of the first; the first path is how
/// the result starts, and the second how it ends.
pub proof fn lemma_joined_parts(b: Seq<u8>, rel: Seq<u8>)
    ensures
        rel.len() > 0 && rel[0] == 47 ==> joined(b, rel) == rel,
        b.len() == 0 ==> joined(b, rel) == rel,
        b.len() > 0 && !(rel.len() > 0 && rel[0] == 47) ==> {
            &&& parts(joined(b, rel)) == parts(b) + below_lead(parts(rel))
            &&& b.is_prefix_of(joined(b, rel))
            &&& rel.is_suffix_of(joined(b, rel))
            &&& joined(b, rel).len() == b.len() + rel.len() + if b.last() == 47 {
                0int
            } else {
                1
            }
        },
{
    let r = joined(b, rel);
    lemma_below_lead(rel);
    if !is_rooted(rel) {
        lemma_joined(b, rel);
        if b.len() > 0 {
            assert(r.subrange(0, b.len() as int) =~= b);
            assert(r.subrange(r.len() - rel.len(), r.len() as int) =~= rel);
        }
    }
}

/// A path has a file name where its last component is a name, and it is that name.
pub proof fn lemma_name_of(b: Seq<u8>, name: Seq<u8>)
    ensures
        name_of(b) == Some(name) <==> parts(b).len() > 0 && parts(b).last() == Part::Normal(name),
{
}

/// A path without a file name is gone on from when it is to be renamed.
pub proof fn lemma_renamed_nameless(b: Seq<u8>, name: Seq<u8>)
    requires
        parts(b).len() > 0 ==> !(parts(b).last() is Normal),
    ensures
        renamed(b, name) == joined(b, name),
{
}

/// One component of a path, owned.
#[derive(Debug)]
pub enum Component {
    /// The leading slash of an absolute path.
    RootDir,
    /// A "." at the very start of a relative path.
    CurDir,
    /// A "..".
    ParentDir,
    /// The name of a file or directory.
    Normal(Vec<u8>),
}

impl View for Component {
    type V = Part;

    open spec fn view(&self) -> Part {
        match self {
            Component::RootDir => Part::RootDir,
            Component::CurDir => Part::CurDir,
            Component::ParentDir => Part::ParentDir,
            Component::Normal(name) => Part::Normal(name@),
        }
    }
}

impl Component {
    /// The components that `cs` holds.
    pub open spec fn all(cs: Seq<Component>) -> Seq<Part> {
        cs.map_values(|c: Component| c@)
    }

    /// Whether two components are equal.
    fn same(&self, other: &Component) -> (r: bool)
        ensures
            r == (self@ == other@),
    {
        match (self, other) {
            (Component::RootDir, Component::RootDir) => true,
            (Component::CurDir, Component::CurDir) => true,
            (Component::ParentDir, Component::ParentDir) => true,
            (Component::Normal(a), Component::Normal(b)) => bytes_equal(a, b),
            _ => false,
        }
    }
}

/// Whether two byte strings are equal.
fn bytes_equal(a: &Vec<u8>, b: &Vec<u8>) -> (r: bool)
    ensures
        r == (a@ == b@),
{
    if a.len() != b.len() {
        return false;
    }
    let mut i: usize = 0;
    while i < a.len()
        invariant
            a@.len() == b@.len(),
            i <= a@.len(),
            forall|j: int| 0 <= j < i ==> a@[j] == b@[j],
        decreases a@.len() - i,
    {
        if a[i] != b[i] {
            return false;
        }
        i = i + 1;
    }
    assert(a@ =~= b@);
    true
}

/// The bytes of `b` from `from` up to `to`.
fn bytes_between(b: &Vec<u8>, from: usize, to: usize) -> (r: Vec<u8>)
    requires
        from <= to <= b@.len(),
    ensures
        r@ == b@.subrange(from as int, to as int),
{
    vstd::slice::slice_to_vec(vstd::slice::slice_subrange(b.as_slice(), from, to))
}

/// Whether the components `short` are the first of `long`.
fn components_start_with(long: &Vec<Component>, short: &Vec<Component>) -> (r: bool)
    ensures
        r == Component::all(short@).is_prefix_of(Component::all(long@)),
{
    let ghost l = Component::all(long@);
    let ghost s = Component::all(short@);
    if short.len() > long.len() {
        return false;
    }
    let mut i: usize = 0;
    while i < short.len()
        invariant
            l == Component::all(long@),
            s == Component::all(short@),
            i <= short@.len() <= long@.len(),
            forall|j: int| 0 <= j < i ==> s[j] == l[j],
        decreases short@.len() - i,
    {
        if !short[i].same(&long[i]) {
            assert(s[i as int] == short@[i as int]@);
            assert(l[i as int] == long@[i as int]@);
            assert(l.subrange(0, s.len() as int)[i as int] == l[i as int]);
            return false;
        }
        i = i + 1;
    }
    assert(s =~= l.subrange(0, s.len() as int));
    true
}

/// A path of a Unix file system: a byte string, cut into components at its slashes.
#[derive(Debug)]
pub struct FsPath {
    bytes: Vec<u8>,
}

impl View for FsPath {
    type V = Seq<u8>;

    closed spec fn view(&self) -> Seq<u8> {
        self.bytes@
    }
}

impl Clone for FsPath {
    fn clone(&self) -> (r: Self)
        ensures
            r@ == self@,
    {
        FsPath { bytes: bytes_between(&self.bytes, 0, self.bytes.len()) }
    }
}

impl PartialEq for FsPath {
    /// Two spellings are equal where their components are.
    fn eq(&self, other: &Self) -> (r: bool) {
        self.same_path(other)
    }
}

impl Eq for FsPath {

}

impl vstd::std_specs::cmp::PartialEqSpecImpl for FsPath {
    open spec fn obeys_eq_spec() -> bool {
        true
    }

    open spec fn eq_spec(&self, other: &Self) -> bool {
        self.key() == other.key()
    }
}

impl FsPath {
    /// What the path names: its components.
    pub open spec fn key(&self) -> Seq<Part> {
        parts(self@)
    }

    /// The path spelled by `bytes`.
    pub fn from_bytes(bytes: Vec<u8>) -> (r: FsPath)
        ensures
            r@ == bytes@,
    {
        FsPath { bytes }
    }

    /// The path spelled by `text`.
    pub fn from_text(text: &str) -> (r: FsPath)
        ensures
            r@ == vstd::utf8::encode_utf8(text@),
    {
        FsPath { bytes: vstd::slice::slice_to_vec(text.as_bytes()) }
    }

    /// The spelling of the path.
    pub fn as_bytes(&self) -> (r: &Vec<u8>)
        ensures
            r@ == self@,
    {
        &self.bytes
    }

    /// Whether the path is absolute.
    fn rooted(&self) -> (r: bool)
        ensures
            r == is_rooted(self@),
    {
        self.bytes.len() > 0 && self.bytes[0] == SLASH
    }

    /// Whether the path starts with the current directory.
    fn dotted(&self) -> (r: bool)
        ensures
            r == starts_with_dot(self@),
    {
        self.bytes.len() > 0 && self.bytes[0] == DOT && (self.bytes.len() == 1 || self.bytes[1]
            == SLASH)
    }

    /// Where the piece that starts at `from` ends.
    fn piece_stop(&self, from: usize) -> (to: usize)
        requires
            from <= self@.len(),
        ensures
            from <= to <= self@.len(),
            to == from + piece_end(self@.skip(from as int)),
    {
        let n: usize = self.bytes.len();
        let mut to: usize = from;
        while to < n && self.bytes[to] != SLASH
            invariant
                n == self@.len(),
                self@ == self.bytes@,
                from <= to <= n,
                forall|j: int| from <= j < to ==> self@[j] != SLASH,
            decreases n - to,
        {
            to = to + 1;
        }
        proof {
            lemma_piece_end_at(self@.skip(from as int), to - from);
        }
        to
    }

    /// The components of the path, from left to right.
    pub fn components(&self) -> (r: Vec<Component>)
        ensures
            Component::all(r@) == self.key(),
    {
        let n: usize = self.bytes.len();
        let mut out: Vec<Component> = Vec::new();
        if self.rooted() {
            out.push(Component::RootDir);
        } else if self.dotted() {
            out.push(Component::CurDir);
        }
        let ghost lead = Component::all(out@);
        assert(lead =~= lead_parts(self@));
        let mut from: usize = 0;
        assert(self@.skip(0) =~= self@);
        while from < n
            invariant
                n == self@.len(),
                self@ == self.bytes@,
                from <= n,
                self.key() == Component::all(out@) + body_parts(self@.skip(from as int)),
            decreases n - from,
        {
            let to: usize = self.piece_stop(from);
            let ghost rest = self@.skip(from as int);
            let ghost before = Component::all(out@);
            let piece: Vec<u8> = bytes_between(&self.bytes, from, to);
            assert(piece@ =~= first_piece(rest));
            let silent: bool = piece.len() == 0 || (piece.len() == 1 && piece[0] == DOT);
            if !silent {
                if piece.len() == 2 && piece[0] == DOT && piece[1] == DOT {
                    out.push(Component::ParentDir);
                } else {
                    out.push(Component::Normal(piece));
                }
            }
            assert(Component::all(out@) =~= before + piece_parts(first_piece(rest)));
            if to < n {
                from = to + 1;
            } else {
                from = n;
            }
            assert(self@.skip(from as int) =~= after_piece(rest));
            assert(before + body_parts(rest) =~= Component::all(out@) + body_parts(
                after_piece(rest),
            ));
        }
        assert(Component::all(out@) + body_parts(self@.skip(n as int)) =~= Component::all(out@));
        out
    }

    /// Whether both paths name the same file: they have the same components.
    pub fn same_path(&self, other: &FsPath) -> (r: bool)
        ensures
            r == (self.key() == other.key()),
    {
        let a: Vec<Component> = self.components();
        let b: Vec<Component> = other.components();
        if a.len() != b.len() {
            assert(self.key().len() != other.key().len());
            return false;
        }
        let r: bool = components_start_with(&a, &b);
        proof {
            if r {
                assert(self.key().subrange(0, other.key().len() as int) =~= self.key());
            } else if self.key() == other.key() {
                assert(self.key().subrange(0, other.key().len() as int) =~= other.key());
            }
        }
        r
    }

    /// Whether `base` is a prefix of the path. Only whole components count.
    pub fn starts_with(&self, base: &FsPath) -> (r: bool)
        ensures
            r == is_under(self@, base@),
    {
        components_start_with(&self.components(), &base.components())
    }

    /// Where `trim_end` cuts what stands between `from` and `to`.
    fn trim_stop(&self, from: usize, to: usize) -> (r: usize)
        requires
            from <= to <= self@.len(),
        ensures
            from <= r <= to,
            self@.subrange(from as int, r as int) == trim_end(
                self@.subrange(from as int, to as int),
            ),
    {
        let mut r: usize = to;
        while r > from && (self.bytes[r - 1] == SLASH || (self.bytes[r - 1] == DOT && (r - 1
            == from || self.bytes[r - 2] == SLASH)))
            invariant
                from <= r <= to <= self@.len(),
                self@ == self.bytes@,
                trim_end(self@.subrange(from as int, r as int)) == trim_end(
                    self@.subrange(from as int, to as int),
                ),
            decreases r,
        {
            assert(self@.subrange(from as int, r as int).drop_last() =~= self@.subrange(
                from as int,
                r - 1,
            ));
            r = r - 1;
        }
        r
    }

    /// Where `skip_pieces` stops when it passes `n` pieces.
    fn skip_stop(&self, n: usize) -> (r: usize)
        ensures
            r <= self@.len(),
            self@.skip(r as int) == skip_pieces(self@, n as nat),
    {
        let len: usize = self.bytes.len();
        let mut left: usize = n;
        let mut from: usize = 0;
        assert(self@.skip(0) =~= self@);
        while from < len
            invariant
                len == self@.len(),
                self@ == self.bytes@,
                from <= len,
                left <= n,
                skip_pieces(self@.skip(from as int), left as nat) == skip_pieces(self@, n as nat),
            decreases len - from,
        {
            let to: usize = self.piece_stop(from);
            let ghost rest = self@.skip(from as int);
            let silent: bool = to == from || (to == from + 1 && self.bytes[from] == DOT);
            assert(silent == is_silent(first_piece(rest)));
            if !silent {
                if left == 0 {
                    return from;
                }
                left = left - 1;
            }
            if to < len {
                from = to + 1;
            } else {
                from = len;
            }
            assert(self@.skip(from as int) =~= after_piece(rest));
        }
        from
    }

    /// The path without its prefix `base`, if `base` is one.
    pub fn strip_prefix(&self, base: &FsPath) -> (r: Option<FsPath>)
        ensures
            r is Some <==> is_under(self@, base@),
            r matches Some(rel) ==> rel@ == relative_to(self@, base@),
    {
        if !self.starts_with(base) {
            return None;
        }
        let n: usize = self.bytes.len();
        if base.bytes.len() == 0 {
            let lead: usize = self.lead();
            let to: usize = self.trim_stop(lead, n);
            assert(self@.subrange(lead as int, n as int) =~= self@.skip(lead as int));
            assert(self@.subrange(0, to as int) =~= tidy(self@));
            Some(FsPath { bytes: bytes_between(&self.bytes, 0, to) })
        } else {
            let count: usize = base.components().len();
            proof {
                lemma_parts_empty(base@);
                assert(base.key()[0] == self.key()[0]);
            }
            let lead: usize = self.lead();
            let from: usize = self.skip_stop(count - lead);
            let to: usize = self.trim_stop(from, n);
            assert(self@.subrange(from as int, n as int) =~= self@.skip(from as int));
            Some(FsPath { bytes: bytes_between(&self.bytes, from, to) })
        }
    }

    /// How many bytes the leading slash or "." takes.
    fn lead(&self) -> (r: usize)
        ensures
            r == lead_len(self@),
            r == lead_parts(self@).len(),
    {
        if self.rooted() || self.dotted() {
            1
        } else {
            0
        }
    }

    /// The path `rel`, taken from this directory.
    pub fn join(&self, rel: &FsPath) -> (r: FsPath)
        ensures
            r@ == joined(self@, rel@),
    {
        let mut out: FsPath = self.clone();
        out.push(rel);
        out
    }

    /// Goes on to the path `rel`, taken from this directory.
    pub fn push(&mut self, rel: &FsPath)
        ensures
            final(self)@ == joined(old(self)@, rel@),
    {
        let ghost before = self@;
        let n: usize = self.bytes.len();
        if rel.rooted() {
            self.bytes.clear();
        } else if n > 0 && self.bytes[n - 1] != SLASH {
            self.bytes.push(SLASH);
        }
        let mut tail: Vec<u8> = bytes_between(&rel.bytes, 0, rel.bytes.len());
        self.bytes.append(&mut tail);
        assert(self@ =~= joined(before, rel@));
    }

    /// The name of the file that the path leads to, if its last component is a name.
    pub fn file_name(&self) -> (r: Option<Vec<u8>>)
        ensures
            r is Some <==> name_of(self@) is Some,
            r matches Some(name) ==> Some(name@) == name_of(self@),
    {
        let mut all: Vec<Component> = self.components();
        assert(self.key().len() == all@.len());
        let last: Option<Component> = all.pop();
        match last {
            None => None,
            Some(c) => {
                assert(self.key().last() == c@);
                match c {
                    Component::Normal(name) => Some(name),
                    _ => None,
                }
            },
        }
    }

    /// The path without its last component, if it has one that is not the root.
    pub fn parent(&self) -> (r: Option<FsPath>)
        ensures
            r is Some <==> parent_of(self@) is Some,
            r matches Some(dir) ==> Some(dir@) == parent_of(self@),
    {
        let n: usize = self.bytes.len();
        let lead: usize = self.lead();
        let stop: usize = self.trim_stop(lead, n);
        assert(self@.subrange(lead as int, n as int) =~= self@.skip(lead as int));
        let ghost body = self@.subrange(lead as int, stop as int);
        if stop > lead {
            let mut start: usize = stop;
            while start > lead && self.bytes[start - 1] != SLASH
                invariant
                    lead <= start <= stop <= self@.len(),
                    self@ == self.bytes@,
                    body == self@.subrange(lead as int, stop as int),
                    last_piece_start(self@.subrange(lead as int, start as int))
                        == last_piece_start(body),
                decreases start,
            {
                assert(self@.subrange(lead as int, start as int).drop_last() =~= self@.subrange(
                    lead as int,
                    start - 1,
                ));
                start = start - 1;
            }
            assert(start - lead == last_piece_start(body));
            let cut: usize = if start > lead {
                start - 1
            } else {
                start
            };
            assert(self@.subrange(lead as int, cut as int) =~= before_last_piece(body));
            let to: usize = self.trim_stop(lead, cut);
            assert(self@.subrange(0, to as int) =~= self@.take(lead as int) + trim_end(
                before_last_piece(body),
            ));
            Some(FsPath { bytes: bytes_between(&self.bytes, 0, to) })
        } else if self.dotted() {
            Some(FsPath { bytes: Vec::new() })
        } else {
            None
        }
    }

    /// Goes up to the parent and says whether there is one.
    pub fn pop(&mut self) -> (r: bool)
        ensures
            r == parent_of(old(self)@) is Some,
            r ==> Some(final(self)@) == parent_of(old(self)@),
            !r ==> final(self)@ == old(self)@,
    {
        match self.parent() {
            Some(dir) => {
                self.bytes = dir.bytes;
                true
            },
            None => false,
        }
    }

    /// Replaces the file name, if there is one, by `name`; else goes on to `name`.
    pub fn set_file_name(&mut self, name: Vec<u8>)
        ensures
            final(self)@ == renamed(old(self)@, name@),
    {
        proof {
            lemma_parent(self@);
        }
        if self.file_name().is_some() {
            self.pop();
        }
        self.push(&FsPath { bytes: name });
    }
}

/// The components of a path are given one for one.
pub proof fn lemma_components(cs: Seq<Component>)
    ensures
        Component::all(cs).len() == cs.len(),
        forall|i: int|
            0 <= i < cs.len() ==> match #[trigger] cs[i] {
                Component::RootDir => Component::all(cs)[i] == Part::RootDir,
                Component::CurDir => Component::all(cs)[i] == Part::CurDir,
                Component::ParentDir => Component::all(cs)[i] == Part::ParentDir,
                Component::Normal(name) => Component::all(cs)[i] == Part::Normal(name@),
            },
{
}

/// Two paths are equal where their components are.
pub proof fn lemma_same_path(a: FsPath, b: FsPath)
    ensures
        a.key() == parts(a@),
        vstd::std_specs::cmp::PartialEqSpec::eq_spec(&a, &b) <==> parts(a@) == parts(b@),
{
}

} // verus!
