use vstd::prelude::*;
use crate::text::{
    chars_of, free_of, join, lemma_first_index_is, lemma_split_join, ranges_within, split,
    split_ranges, windows,
};

verus! {

/// Whether `path` starts at the root directory.
pub open spec fn is_absolute(path: Seq<char>) -> bool {
    path.len() > 0 && path[0] == '/'
}

/// Whether a piece between two slashes names something: empty pieces and
/// lone dots do not.
pub open spec fn is_segment(piece: Seq<char>) -> bool {
    piece.len() > 0 && piece != seq!['.']
}

/// The pieces that name something, in order.
pub open spec fn keep_segments(pieces: Seq<Seq<char>>) -> Seq<Seq<char>>
    decreases pieces.len(),
{
    if pieces.len() == 0 {
        Seq::empty()
    } else if is_segment(pieces.last()) {
        keep_segments(pieces.drop_last()).push(pieces.last())
    } else {
        keep_segments(pieces.drop_last())
    }
}

/// What a path starts from: the root directory, written `/`, for an absolute
/// path; the current directory, written `.`, for a relative path that names
/// it first; nothing otherwise.
pub open spec fn lead(path: Seq<char>) -> Seq<Seq<char>> {
    if is_absolute(path) {
        seq![seq!['/']]
    } else if split(path, '/')[0] == seq!['.'] {
        seq![seq!['.']]
    } else {
        Seq::empty()
    }
}

/// The components of a path: where it starts from, then its segments.
/// Repeated slashes, a trailing slash and dots inside the path add nothing.
pub open spec fn components(path: Seq<char>) -> Seq<Seq<char>> {
    lead(path) + keep_segments(split(path, '/'))
}

/// The shortest path with the given components.
pub open spec fn path_text(components: Seq<Seq<char>>) -> Seq<char> {
    if components.len() > 0 && components[0] == seq!['/'] {
        seq!['/'] + join(components.skip(1), '/')
    } else {
        join(components, '/')
    }
}

/// What is left of `path` once the components of `prefix` are taken from its
/// front, or `None` when `path` does not start with all of them. Components
/// are compared whole, never by their first characters.
pub open spec fn strip_prefix(path: Seq<char>, prefix: Seq<char>) -> Option<Seq<Seq<char>>> {
    let p = components(path);
    let q = components(prefix);
    if q.len() <= p.len() && p.take(q.len() as int) == q {
        Some(p.skip(q.len() as int))
    } else {
        None
    }
}

/// `rel` as seen from the directory `base`: `rel` itself when it is
/// absolute, otherwise `base` followed by `rel`, with a slash between them
/// unless `base` is empty or already ends in one.
pub open spec fn pushed(base: Seq<char>, rel: Seq<char>) -> Seq<char> {
    if is_absolute(rel) {
        rel
    } else if base.len() > 0 && base.last() != '/' {
        base + seq!['/'] + rel
    } else {
        base + rel
    }
}

/// Joining one more piece appends a separator and the piece.
pub proof fn lemma_join_push(pieces: Seq<Seq<char>>, piece: Seq<char>, sep: char)
    ensures
        join(pieces.push(piece), sep) == if pieces.len() == 0 {
            piece
        } else {
            join(pieces, sep) + seq![sep] + piece
        },
    decreases pieces.len(),
{
    let all = pieces.push(piece);
    if pieces.len() > 0 {
        assert(all.drop_first() == pieces.drop_first().push(piece));
        lemma_join_push(pieces.drop_first(), piece, sep);
        if pieces.len() == 1 {
            assert(join(all, sep) =~= join(pieces, sep) + seq![sep] + piece);
        } else {
            assert(join(all, sep) =~= join(pieces, sep) + seq![sep] + piece);
        }
    }
}

/// Every one of `names` can stand between two slashes of a path and names
/// something there.
pub open spec fn well_named(names: Seq<Seq<char>>) -> bool {
    forall|k: int|
        0 <= k < names.len() ==> is_segment(#[trigger] names[k]) && free_of(names[k], '/')
}

/// The absolute path that leads through the directories `names`.
pub open spec fn absolute(names: Seq<Seq<char>>) -> Seq<char> {
    seq!['/'] + join(names, '/')
}

/// An empty piece in front of names adds no segment.
pub proof fn lemma_keep_segments(names: Seq<Seq<char>>)
    requires
        well_named(names),
    ensures
        keep_segments(seq![Seq::<char>::empty()] + names) == names,
    decreases names.len(),
{
    let pieces = seq![Seq::<char>::empty()] + names;
    if names.len() == 0 {
        assert(pieces.drop_last() =~= Seq::<Seq<char>>::empty());
        assert(keep_segments(pieces.drop_last()) =~= Seq::<Seq<char>>::empty());
        assert(!is_segment(pieces.last()));
        assert(keep_segments(pieces) =~= names);
    } else {
        let front = names.drop_last();
        assert(pieces.drop_last() =~= seq![Seq::<char>::empty()] + front);
        assert(pieces.last() == names.last());
        lemma_keep_segments(front);
        assert(keep_segments(pieces) =~= names);
    }
}

/// The components of an absolute path written without detours are the root
/// and the names it was written with.
pub proof fn lemma_components_of_absolute(names: Seq<Seq<char>>)
    requires
        well_named(names),
    ensures
        components(absolute(names)) == seq![seq!['/']] + names,
{
    let none = Seq::<char>::empty();
    let text = absolute(names);
    if names.len() == 0 {
        assert(text =~= seq!['/']);
        assert(free_of(text.take(0), '/'));
        lemma_first_index_is(text, '/', 0);
        assert(text.take(0) =~= none);
        assert(text.skip(1) =~= none);
        assert(split(none, '/') =~= seq![none]);
        assert(split(text, '/') =~= seq![none] + seq![none]);
        lemma_keep_segments(names);
        let pieces = seq![none] + seq![none];
        assert(pieces.drop_last() =~= seq![none] + names);
        assert(keep_segments(pieces) == names);
    } else {
        let pieces = seq![none] + names;
        assert(pieces.drop_first() =~= names);
        assert(join(pieces, '/') =~= text);
        assert forall|k: int| 0 <= k < pieces.len() implies free_of(#[trigger] pieces[k], '/') by {
            if k > 0 {
                assert(pieces[k] == names[k - 1]);
            }
        }
        lemma_split_join(pieces, '/');
        lemma_keep_segments(names);
    }
    assert(lead(text) =~= seq![seq!['/']]);
}

/// Between absolute paths written without detours, a prefix is taken off
/// name by name: it comes off exactly when its names are the first names of
/// the path, each equal as a whole, and the names after them are left. A
/// name that merely starts with the characters of another does not match it.
pub proof fn lemma_strip_prefix_by_names(path: Seq<Seq<char>>, prefix: Seq<Seq<char>>)
    requires
        well_named(path),
        well_named(prefix),
    ensures
        strip_prefix(absolute(path), absolute(prefix)) == if prefix.is_prefix_of(path) {
            Some(path.skip(prefix.len() as int))
        } else {
            None
        },
{
    lemma_components_of_absolute(path);
    lemma_components_of_absolute(prefix);
    let root = seq![seq!['/']];
    let p = root + path;
    let q = root + prefix;
    if prefix.is_prefix_of(path) {
        assert(p.take(q.len() as int) =~= q);
        assert(p.skip(q.len() as int) =~= path.skip(prefix.len() as int));
    } else if q.len() <= p.len() && p.take(q.len() as int) == q {
        assert forall|k: int| 0 <= k < prefix.len() implies prefix[k] == path[k] by {
            assert(q[k + 1] == prefix[k]);
            assert(p.take(q.len() as int)[k + 1] == path[k]);
        }
        assert(prefix =~= path.subrange(0, prefix.len() as int));
    }
}

/// Whether two parts, each cut out of its own text, hold the same characters.
pub fn same_window(a: &Vec<char>, ra: (usize, usize), b: &Vec<char>, rb: (usize, usize)) -> (same:
    bool)
    requires
        ra.0 <= ra.1 <= a.len(),
        rb.0 <= rb.1 <= b.len(),
    ensures
        same == (a@.subrange(ra.0 as int, ra.1 as int) == b@.subrange(rb.0 as int, rb.1 as int)),
{
    let ghost x = a@.subrange(ra.0 as int, ra.1 as int);
    let ghost y = b@.subrange(rb.0 as int, rb.1 as int);
    let n = ra.1 - ra.0;
    if rb.1 - rb.0 != n {
        assert(x.len() != y.len());
        return false;
    }
    let mut i: usize = 0;
    while i < n
        invariant
            i <= n,
            n == ra.1 - ra.0,
            n == rb.1 - rb.0,
            ra.0 <= ra.1 <= a.len(),
            rb.0 <= rb.1 <= b.len(),
            x == a@.subrange(ra.0 as int, ra.1 as int),
            y == b@.subrange(rb.0 as int, rb.1 as int),
            forall|j: int| 0 <= j < i ==> x[j] == y[j],
        decreases n - i,
    {
        if a[ra.0 + i] != b[rb.0 + i] {
            assert(x[i as int] != y[i as int]);
            return false;
        }
        i = i + 1;
    }
    assert(x =~= y);
    true
}

/// Reports where each component of the path `chars` lies.
pub fn component_ranges(chars: &Vec<char>) -> (out: Vec<(usize, usize)>)
    ensures
        windows(chars@, out@) == components(chars@),
        ranges_within(out@, 0, chars.len() as int),
{
    let pieces = split_ranges(chars, 0, chars.len(), '/');
    assert(chars@.subrange(0, chars.len() as int) == chars@);
    let ghost p = split(chars@, '/');
    let mut out: Vec<(usize, usize)> = Vec::new();
    let first = pieces[0];
    assert(p[0] == chars@.subrange(first.0 as int, first.1 as int));
    if chars.len() > 0 && chars[0] == '/' {
        out.push((0, 1));
        assert(chars@.subrange(0, 1) =~= seq!['/']);
    } else if first.1 - first.0 == 1 && chars[first.0] == '.' {
        out.push(first);
        assert(p[0] =~= seq!['.']);
    } else {
        assert(p[0] != seq!['.']) by {
            if p[0] == seq!['.'] {
                assert(p[0].len() == 1);
                assert(p[0][0] == '.');
            }
        }
    }
    assert(windows(chars@, out@) =~= lead(chars@));
    assert(p.take(0) =~= Seq::<Seq<char>>::empty());
    let mut k: usize = 0;
    while k < pieces.len()
        invariant
            k <= pieces.len(),
            p == split(chars@, '/'),
            windows(chars@, pieces@) == p,
            ranges_within(pieces@, 0, chars.len() as int),
            ranges_within(out@, 0, chars.len() as int),
            windows(chars@, out@) == lead(chars@) + keep_segments(p.take(k as int)),
        decreases pieces.len() - k,
    {
        let piece = pieces[k];
        let ghost text = chars@.subrange(piece.0 as int, piece.1 as int);
        let ghost before = windows(chars@, out@);
        assert(p[k as int] == text);
        assert(p.take(k + 1).drop_last() == p.take(k as int));
        assert(p.take(k + 1).last() == text);
        let named = piece.1 > piece.0 && !(piece.1 - piece.0 == 1 && chars[piece.0] == '.');
        assert(named == is_segment(text)) by {
            if piece.1 - piece.0 == 1 {
                assert(text[0] == chars@[piece.0 as int]);
                if chars@[piece.0 as int] == '.' {
                    assert(text =~= seq!['.']);
                }
            }
        }
        if named {
            out.push(piece);
            assert(windows(chars@, out@) =~= before.push(text));
            assert(before.push(text) =~= lead(chars@) + keep_segments(p.take(k as int)).push(
                text,
            ));
        }
        k = k + 1;
    }
    assert(p.take(k as int) == p);
    out
}

/// The path that `rel` names when it is looked up from the directory `base`.
pub fn push_path(base: String, rel: &str) -> (out: String)
    ensures
        out@ == pushed(base@, rel@),
{
    let rel_chars = chars_of(rel);
    if rel_chars.len() > 0 && rel_chars[0] == '/' {
        return rel.to_owned();
    }
    let base_chars = chars_of(base.as_str());
    let mut out = base;
    if base_chars.len() > 0 && base_chars[base_chars.len() - 1] != '/' {
        out.append("/");
        proof {
            reveal_strlit("/");
            assert("/"@ =~= seq!['/']);
        }
    }
    out.append(rel);
    out
}

/// Writes out the components from position `from` on as the shortest path
/// that has them.
pub fn rest_text(s: &str, chars: &Vec<char>, parts: &Vec<(usize, usize)>, from: usize) -> (out:
    String)
    requires
        chars@ == s@,
        from <= parts.len(),
        ranges_within(parts@, 0, chars.len() as int),
    ensures
        out@ == path_text(windows(chars@, parts@).skip(from as int)),
{
    let ghost rest = windows(chars@, parts@).skip(from as int);
    let mut out = String::new();
    let mut k: usize = from;
    if from < parts.len() {
        let head = parts[from];
        assert(rest[0] == chars@.subrange(head.0 as int, head.1 as int));
        if head.1 - head.0 == 1 && chars[head.0] == '/' {
            out.append("/");
            k = from + 1;
            proof {
                reveal_strlit("/");
                assert("/"@ =~= seq!['/']);
                assert(rest[0] =~= seq!['/']);
            }
        } else {
            assert(rest[0] != seq!['/']) by {
                if rest[0] == seq!['/'] {
                    assert(rest[0].len() == 1);
                    assert(rest[0][0] == '/');
                }
            }
        }
    }
    let start: usize = k;
    let ghost tail = windows(chars@, parts@).skip(start as int);
    let ghost prefix = out@;
    assert(path_text(rest) == prefix + join(tail, '/')) by {
        if start == from {
            assert(prefix + join(tail, '/') =~= join(tail, '/'));
        } else {
            assert(rest.skip(1) =~= tail);
        }
    }
    assert(tail.take(0) =~= Seq::<Seq<char>>::empty());
    assert(prefix + join(tail.take(0), '/') =~= prefix);
    while k < parts.len()
        invariant
            start <= k <= parts.len(),
            chars@ == s@,
            ranges_within(parts@, 0, chars.len() as int),
            tail == windows(chars@, parts@).skip(start as int),
            out@ == prefix + join(tail.take(k - start), '/'),
        decreases parts.len() - k,
    {
        let part = parts[k];
        let ghost text = chars@.subrange(part.0 as int, part.1 as int);
        let ghost done = tail.take(k - start);
        proof {
            assert(tail[k - start] == text);
            assert(tail.take(k + 1 - start) =~= done.push(text));
            lemma_join_push(done, text, '/');
        }
        if k > start {
            out.append("/");
            proof {
                reveal_strlit("/");
                assert("/"@ =~= seq!['/']);
            }
        }
        out.append(s.substring_char(part.0, part.1));
        assert(out@ =~= prefix + join(done.push(text), '/')) by {
            if k == start {
                assert(done.len() == 0);
            }
        }
        k = k + 1;
    }
    assert(tail.take(k - start) == tail);
    out
}

} // verus!
