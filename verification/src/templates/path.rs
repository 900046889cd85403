//! Paths as text and as sequences of components.
//!
//! A path is split at `/`. Empty pieces are dropped, and so is a piece `.`
//! unless it is the first piece of the text. A text that starts with `/`
//! has the root, written `/`, as its first component.

use vstd::prelude::*;
use vstd::std_specs::iter::IteratorSpec;

verus! {

/// The views of a list of strings.
pub open spec fn texts(names: Seq<String>) -> Seq<Seq<char>> {
    names.map_values(|name: String| name@)
}

/// The pieces between the separators of a text. There is always at least
/// one piece, and a piece may be empty.
pub open spec fn pieces(text: Seq<char>) -> Seq<Seq<char>>
    decreases text.len(),
{
    if text.len() == 0 {
        seq![Seq::<char>::empty()]
    } else {
        let front = pieces(text.drop_last());
        if text.last() == '/' {
            front.push(Seq::<char>::empty())
        } else {
            front.drop_last().push(front.last().push(text.last()))
        }
    }
}

/// Whether a piece counts as a component: it is not empty, and it is not
/// `.` unless it is the first piece.
pub open spec fn keeps(piece: Seq<char>, first: bool) -> bool {
    piece.len() > 0 && (first || piece != seq!['.'])
}

/// The pieces that count as components, in order.
pub open spec fn selected(pieces: Seq<Seq<char>>) -> Seq<Seq<char>>
    decreases pieces.len(),
{
    if pieces.len() == 0 {
        Seq::<Seq<char>>::empty()
    } else {
        let front = selected(pieces.drop_last());
        if keeps(pieces.last(), pieces.len() == 1) {
            front.push(pieces.last())
        } else {
            front
        }
    }
}

/// Whether a path starts at the root.
pub open spec fn is_absolute(text: Seq<char>) -> bool {
    text.len() > 0 && text[0] == '/'
}

/// The root component of an absolute path, and nothing for a relative one.
pub open spec fn root_part(text: Seq<char>) -> Seq<Seq<char>> {
    if is_absolute(text) {
        seq![seq!['/']]
    } else {
        Seq::<Seq<char>>::empty()
    }
}

/// The components of a path.
pub open spec fn components(text: Seq<char>) -> Seq<Seq<char>> {
    root_part(text) + selected(pieces(text))
}

/// Whether a path ends with the components of another.
pub open spec fn ends_with(path: Seq<Seq<char>>, suffix: Seq<Seq<char>>) -> bool {
    suffix.len() <= path.len() && path.skip(path.len() - suffix.len()) == suffix
}

/// A path extended by a name. A name that starts with `/` stands alone;
/// otherwise a separator is put between the two unless the path is empty
/// or ends with one.
pub open spec fn joined(base: Seq<char>, name: Seq<char>) -> Seq<char> {
    if is_absolute(name) {
        name
    } else if base.len() == 0 || base.last() == '/' {
        base + name
    } else {
        base + seq!['/'] + name
    }
}

/// A path extended by a list of names, one after the other.
pub open spec fn joined_all(base: Seq<char>, names: Seq<Seq<char>>) -> Seq<char>
    decreases names.len(),
{
    if names.len() == 0 {
        base
    } else {
        joined(joined_all(base, names.drop_last()), names.last())
    }
}

/// The pieces of a list put together again, with a separator between
/// each two.
pub open spec fn glued(pieces: Seq<Seq<char>>) -> Seq<char>
    decreases pieces.len(),
{
    if pieces.len() == 0 {
        Seq::<char>::empty()
    } else if pieces.len() == 1 {
        pieces[0]
    } else {
        glued(pieces.drop_last()) + seq!['/'] + pieces.last()
    }
}

/// A text always has a piece.
pub proof fn lemma_pieces_nonempty(text: Seq<char>)
    ensures
        pieces(text).len() >= 1,
    decreases text.len(),
{
    if text.len() > 0 {
        lemma_pieces_nonempty(text.drop_last());
    }
}

/// No piece of a text holds a separator.
pub proof fn lemma_pieces_hold_no_separator(text: Seq<char>)
    ensures
        forall|i: int, j: int|
            0 <= i < pieces(text).len() && 0 <= j < pieces(text)[i].len() ==> (
            #[trigger] pieces(text)[i][j]) != '/',
    decreases text.len(),
{
    if text.len() > 0 {
        lemma_pieces_hold_no_separator(text.drop_last());
        lemma_pieces_nonempty(text.drop_last());
    }
}

/// The pieces of a text, put together again, are the text.
pub proof fn lemma_pieces_glue_back(text: Seq<char>)
    ensures
        glued(pieces(text)) == text,
    decreases text.len(),
{
    if text.len() == 0 {
        assert(glued(pieces(text)) =~= text);
    } else {
        let front = pieces(text.drop_last());
        lemma_pieces_glue_back(text.drop_last());
        lemma_pieces_nonempty(text.drop_last());
        if text.last() == '/' {
            let all = front.push(Seq::<char>::empty());
            assert(all.drop_last() =~= front);
            assert(glued(all) =~= text.drop_last().push('/'));
            assert(text.drop_last().push('/') =~= text);
        } else {
            let grown = front.last().push(text.last());
            let all = front.drop_last().push(grown);
            assert(all.drop_last() =~= front.drop_last());
            if front.len() == 1 {
                assert(glued(all) =~= glued(front).push(text.last()));
            } else {
                assert(glued(all) =~= glued(front).push(text.last()));
            }
            assert(text.drop_last().push(text.last()) =~= text);
        }
    }
}

/// The characters of a text, in a vector.
pub fn chars_of(text: &str) -> (r: Vec<char>)
    ensures
        r@ == text@,
{
    let mut r: Vec<char> = Vec::new();
    let mut it = text.chars();
    let ghost mut k: int = 0;
    loop
        invariant
            0 <= k <= text@.len(),
            it.remaining() == text@.skip(k),
            r@ == text@.take(k),
        ensures
            k == text@.len(),
        decreases text@.len() - k,
    {
        match it.next() {
            Some(c) => {
                proof {
                    assert(text@.skip(k)[0] == text@[k]);
                    assert(text@.skip(k).drop_first() =~= text@.skip(k + 1));
                    assert(text@.take(k).push(c) =~= text@.take(k + 1));
                    k = k + 1;
                }
                r.push(c);
            },
            None => {
                assert(text@.skip(k).len() == 0);
                break ;
            },
        }
    }
    assert(text@.take(k) =~= text@);
    r
}

/// Splits a path into its components.
pub fn path_components(text: &str) -> (r: Vec<String>)
    ensures
        texts(r@) == components(text@),
{
    let chars = chars_of(text);
    let n = chars.len();
    let mut out: Vec<String> = Vec::new();
    if n > 0 && chars[0] == '/' {
        proof {
            reveal_strlit("/");
        }
        out.push("/".to_owned());
        assert("/"@ =~= seq!['/']);
        assert(texts(out@) =~= root_part(text@));
    } else {
        assert(texts(out@) =~= root_part(text@));
    }
    let mut start: usize = 0;
    let mut first = true;
    let mut k: usize = 0;
    proof {
        assert(text@.take(0) =~= Seq::<char>::empty());
        assert(pieces(text@.take(0)) =~= seq![Seq::<char>::empty()]);
        assert(pieces(text@.take(0)).drop_last() =~= Seq::<Seq<char>>::empty());
        assert(text@.subrange(0, 0) =~= Seq::<char>::empty());
        assert(texts(out@) =~= root_part(text@) + selected(pieces(text@.take(0)).drop_last()));
    }
    while k < n
        invariant
            n == text@.len(),
            chars@ == text@,
            0 <= start <= k <= n,
            pieces(text@.take(k as int)).len() >= 1,
            pieces(text@.take(k as int)).last() == text@.subrange(start as int, k as int),
            texts(out@) == root_part(text@) + selected(pieces(text@.take(k as int)).drop_last()),
            first == (pieces(text@.take(k as int)).len() == 1),
        decreases n - k,
    {
        let ghost front = pieces(text@.take(k as int));
        proof {
            assert(text@.take(k + 1).drop_last() =~= text@.take(k as int));
            assert(text@.take(k + 1).last() == text@[k as int]);
        }
        if chars[k] == '/' {
            let is_dot = k - start == 1 && chars[start] == '.';
            let ghost before = out@;
            if start < k && (first || !is_dot) {
                let piece = text.substring_char(start, k);
                out.push(piece.to_owned());
                assert(texts(out@) =~= texts(before).push(piece@));
            }
            proof {
                let piece = text@.subrange(start as int, k as int);
                assert(is_dot == (piece =~= seq!['.'])) by {
                    if piece =~= seq!['.'] {
                        assert(piece.len() == 1);
                        assert(piece[0] == '.');
                    }
                }
                let next = pieces(text@.take(k + 1));
                assert(next == front.push(Seq::<char>::empty()));
                assert(next.drop_last() =~= front);
                assert(next.last() =~= text@.subrange(k + 1, k + 1));
                assert(front.last() == piece);
                if keeps(piece, first) {
                    assert(selected(front) == selected(front.drop_last()).push(piece));
                    assert(texts(out@) =~= root_part(text@) + selected(front));
                } else {
                    assert(selected(front) == selected(front.drop_last()));
                    assert(texts(out@) =~= root_part(text@) + selected(front));
                }
            }
            start = k + 1;
            first = false;
        } else {
            proof {
                let next = pieces(text@.take(k + 1));
                assert(next == front.drop_last().push(front.last().push(text@[k as int])));
                assert(next.drop_last() =~= front.drop_last());
                assert(next.last() =~= text@.subrange(start as int, k + 1));
            }
        }
        k += 1;
    }
    let is_dot = n - start == 1 && chars[start] == '.';
    let ghost before = out@;
    if start < n && (first || !is_dot) {
        let piece = text.substring_char(start, n);
        out.push(piece.to_owned());
        assert(texts(out@) =~= texts(before).push(piece@));
    }
    proof {
        assert(text@.take(n as int) =~= text@);
        let piece = text@.subrange(start as int, n as int);
        let all = pieces(text@);
        assert(all.last() == piece);
        if keeps(piece, first) {
            assert(selected(all) == selected(all.drop_last()).push(piece));
        } else {
            assert(selected(all) == selected(all.drop_last()));
        }
        assert(is_dot == (piece =~= seq!['.'])) by {
            if piece =~= seq!['.'] {
                assert(piece.len() == 1);
                assert(piece[0] == '.');
            }
        }
        assert(texts(out@) =~= components(text@));
    }
    out
}

/// Extends a path by a name.
pub fn join(base: &str, name: &str) -> (r: String)
    ensures
        r@ == joined(base@, name@),
{
    let head = chars_of(name);
    if head.len() > 0 && head[0] == '/' {
        return name.to_owned();
    }
    let tail = chars_of(base);
    let mut r = base.to_owned();
    if tail.len() > 0 && tail[tail.len() - 1] != '/' {
        proof {
            reveal_strlit("/");
        }
        r.append("/");
        assert("/"@ =~= seq!['/']);
    }
    r.append(name);
    r
}

/// Extends a path by a list of names, one after the other.
pub fn join_all(base: &str, names: &Vec<String>) -> (r: String)
    ensures
        r@ == joined_all(base@, texts(names@)),
{
    let mut r = base.to_owned();
    let mut i: usize = 0;
    assert(texts(names@).take(0) =~= Seq::<Seq<char>>::empty());
    while i < names.len()
        invariant
            i <= names@.len(),
            r@ == joined_all(base@, texts(names@).take(i as int)),
        decreases names@.len() - i,
    {
        proof {
            let taken = texts(names@).take(i + 1);
            assert(taken.drop_last() =~= texts(names@).take(i as int));
            assert(taken.last() == names@[i as int]@);
        }
        r = join(r.as_str(), names[i].as_str());
        i += 1;
    }
    assert(texts(names@).take(i as int) =~= texts(names@));
    r
}

/// Whether the first components of a path, up to a length, end with a
/// list of components. A length beyond the path stands for the whole path.
pub fn prefix_ends_with(path: &Vec<String>, len: usize, suffix: &Vec<String>) -> (r: bool)
    ensures
        r == ends_with(
            texts(path@).take(
                if len <= path@.len() {
                    len as int
                } else {
                    path@.len() as int
                },
            ),
            texts(suffix@),
        ),
{
    let upto = if len <= path.len() {
        len
    } else {
        path.len()
    };
    let m = suffix.len();
    if m > upto {
        assert(texts(path@).take(upto as int).len() == upto);
        assert(texts(suffix@).len() == m);
        return false;
    }
    let offset = upto - m;
    let ghost whole = texts(path@).take(upto as int);
    assert(whole.len() == upto);
    assert(texts(suffix@).len() == m);
    let mut j: usize = 0;
    while j < m
        invariant
            j <= m,
            m == suffix@.len(),
            offset + m == upto,
            upto <= path@.len(),
            upto == if len <= path@.len() {
                len as int
            } else {
                path@.len() as int
            },
            whole == texts(path@).take(upto as int),
            whole.len() == upto,
            texts(suffix@).len() == m,
            forall|i: int| 0 <= i < j ==> (#[trigger] path@[offset + i])@ == suffix@[i]@,
        decreases m - j,
    {
        if path[offset + j] != suffix[j] {
            proof {
                assert(whole.skip(offset as int)[j as int] == path@[offset + j]@);
                assert(texts(suffix@)[j as int] == suffix@[j as int]@);
            }
            return false;
        }
        j += 1;
    }
    proof {
        assert forall|i: int| 0 <= i < m implies whole.skip(offset as int)[i] == texts(
            suffix@,
        )[i] by {
            assert(path@[offset + i]@ == suffix@[i]@);
        }
        assert(whole.skip(offset as int) =~= texts(suffix@));
    }
    true
}

} // verus!
