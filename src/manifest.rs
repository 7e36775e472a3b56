//! The manifest: one path per line, each relative to the multiplexer's own
//! directory and required to stay inside it.
use vstd::prelude::*;
use vstd::string::*;

verus! {

/// A trailing carriage return taken off a line.
pub open spec fn strip_cr(line: Seq<char>) -> Seq<char> {
    if line.len() > 0 && line.last() == '\r' {
        line.drop_last()
    } else {
        line
    }
}

/// Reading `s` from the left: the lines already ended by a `'\n'`, and the
/// characters since the last `'\n'`.
pub open spec fn line_fold(s: Seq<char>) -> (Seq<Seq<char>>, Seq<char>)
    decreases s.len(),
{
    if s.len() == 0 {
        (Seq::empty(), Seq::empty())
    } else {
        let (done, current) = line_fold(s.drop_last());
        if s.last() == '\n' {
            (done.push(strip_cr(current)), Seq::empty())
        } else {
            (done, current.push(s.last()))
        }
    }
}

/// The lines of a text: it is split at each `'\n'`, a `'\r'` right before a
/// `'\n'` belongs to the line ending, and the last line needs no ending (an
/// empty remainder after the last ending is no line).
pub open spec fn lines_of(s: Seq<char>) -> Seq<Seq<char>> {
    let (done, current) = line_fold(s);
    if current.len() == 0 {
        done
    } else {
        done.push(current)
    }
}

/// The text of each line of `text`, in order.
pub fn manifest_lines(text: &str) -> (r: Vec<String>)
    ensures
        r@.map_values(|l: String| l@) == lines_of(text@),
{
    let mut lines: Vec<String> = Vec::new();
    let mut start: usize = 0;
    let mut pos: usize = 0;
    let mut previous: char = '\n';
    let ghost s = text@;
    let n = text.unicode_len();
    for c in it: text.chars()
        invariant
            it.seq() == s,
            pos == it.index(),
            start <= pos,
            n == s.len(),
            s == text@,
            line_fold(s.take(it.index() as int)) == (lines@.map_values(|l: String| l@), s.subrange(start as int, it.index() as int)),
            it.index() > start ==> previous == s[it.index() - 1],
    {
        assert(c == s[pos as int]);
        assert(s.take(pos + 1).drop_last() =~= s.take(pos as int));
        if c == '\n' {
            let end = if pos > start && previous == '\r' { pos - 1 } else { pos };
            let line = String::from_str(text.substring_char(start, end));
            assert(line@ =~= strip_cr(s.subrange(start as int, pos as int)));
            let ghost before = lines@;
            lines.push(line);
            assert(lines@.map_values(|l: String| l@) =~= before.map_values(|l: String| l@).push(line@));
            start = pos + 1;
        } else {
            assert(s.subrange(start as int, pos + 1) =~= s.subrange(start as int, pos as int).push(c));
        }
        previous = c;
        pos = pos + 1;
    }
    assert(s.take(n as int) =~= s);
    if start < n {
        lines.push(String::from_str(text.substring_char(start, n)));
    }
    proof {
        let done = line_fold(s).0;
        let current = line_fold(s).1;
        if start < n {
            assert(lines@.map_values(|l: String| l@) =~= done.push(current));
        }
    }
    lines
}

/// Path separators: both are accepted on the host's platform.
pub open spec fn is_separator(c: char) -> bool {
    c == '/' || c == '\\'
}

/// How one path component moves the depth below the base directory: a parent
/// step climbs a level, an empty or current-directory component stays, and
/// any other name descends a level.
pub open spec fn component_step(component: Seq<char>) -> int {
    if component == seq!['.', '.'] {
        -1
    } else if component.len() == 0 || component == seq!['.'] {
        0
    } else {
        1
    }
}

/// The depth after one more component, or `None` once the path has climbed
/// above the base directory.
pub open spec fn descend(depth: Option<int>, component: Seq<char>) -> Option<int> {
    match depth {
        Some(d) => if d + component_step(component) >= 0 {
            Some(d + component_step(component))
        } else {
            None
        },
        None => None,
    }
}

/// Reading a relative path from the left: the depth reached by the
/// components already ended by a separator, and the component being read.
pub open spec fn depth_fold(s: Seq<char>) -> (Option<int>, Seq<char>)
    decreases s.len(),
{
    if s.len() == 0 {
        (Some(0), Seq::empty())
    } else {
        let (depth, current) = depth_fold(s.drop_last());
        if is_separator(s.last()) {
            (descend(depth, current), Seq::empty())
        } else {
            (depth, current.push(s.last()))
        }
    }
}

/// A path that names its own root or drive (or an alternate stream), which
/// joining to a base directory would not keep below it.
pub open spec fn is_anchored(rel: Seq<char>) -> bool {
    (rel.len() > 0 && is_separator(rel[0])) || rel.contains(':')
}

/// Whether `rel`, resolved against a base directory, stays lexically inside
/// it: it is not anchored, and no prefix of its components climbs above the
/// base.
pub open spec fn stays_inside(rel: Seq<char>) -> bool {
    !is_anchored(rel) && descend(depth_fold(rel).0, depth_fold(rel).1) is Some
}

spec fn all_dots(component: Seq<char>) -> bool {
    forall|j: int| 0 <= j < component.len() ==> component[j] == '.'
}

spec fn widen(depth: Option<usize>) -> Option<int> {
    match depth {
        Some(d) => Some(d as int),
        None => None,
    }
}

fn close_component(depth: Option<usize>, len: usize, dots: bool, Ghost(component): Ghost<Seq<char>>) -> (r: Option<usize>)
    requires
        component.len() == len,
        dots == all_dots(component),
        depth is Some && len > 0 ==> depth->0 < usize::MAX,
    ensures
        descend(widen(depth), component) == widen(r),
        r is Some ==> depth is Some && r->0 <= depth->0 + 1,
{
    assert(len == 2 && dots ==> component =~= seq!['.', '.']);
    assert(len == 1 && dots ==> component =~= seq!['.']);
    match depth {
        None => None,
        Some(d) => {
            if len == 2 && dots {
                if d == 0 {
                    None
                } else {
                    Some(d - 1)
                }
            } else if len == 0 || (len == 1 && dots) {
                Some(d)
            } else {
                Some(d + 1)
            }
        },
    }
}

/// Whether a manifest entry resolves to a place inside the base directory.
pub fn is_in_tree(rel: &str) -> (r: bool)
    ensures
        r == stays_inside(rel@),
{
    let ghost s = rel@;
    let n = rel.unicode_len();
    let mut depth: Option<usize> = Some(0);
    let mut start: usize = 0;
    let mut dots = true;
    let mut colon = false;
    let mut pos: usize = 0;
    for c in it: rel.chars()
        invariant
            it.seq() == s,
            s == rel@,
            n == s.len(),
            pos == it.index(),
            start <= pos,
            depth is Some ==> depth->0 <= start,
            depth_fold(s.take(pos as int)) == (widen(depth), s.subrange(start as int, pos as int)),
            dots == all_dots(s.subrange(start as int, pos as int)),
            colon <==> s.take(pos as int).contains(':'),
    {
        assert(c == s[pos as int]);
        assert(s.take(pos + 1).drop_last() =~= s.take(pos as int));
        assert(s.take(pos + 1) =~= s.take(pos as int).push(c));
        if c == '/' || c == '\\' {
            depth = close_component(depth, pos - start, dots, Ghost(s.subrange(start as int, pos as int)));
            start = pos + 1;
            dots = true;
            assert(s.subrange(start as int, pos + 1) =~= Seq::<char>::empty());
        } else {
            let ghost current = s.subrange(start as int, pos as int);
            assert(s.subrange(start as int, pos + 1) =~= current.push(c));
            assert(all_dots(current.push(c)) == (all_dots(current) && c == '.')) by {
                if all_dots(current) && c == '.' {
                    assert forall|j: int| 0 <= j < current.len() + 1 implies #[trigger] current.push(c)[j] == '.' by {
                        if j < current.len() {
                            assert(current.push(c)[j] == current[j]);
                        }
                    }
                }
                if all_dots(current.push(c)) {
                    assert(current.push(c)[current.len() as int] == c);
                    assert forall|j: int| 0 <= j < current.len() implies #[trigger] current[j] == '.' by {
                        assert(current.push(c)[j] == current[j]);
                    }
                }
            }
            dots = dots && c == '.';
        }
        if c == ':' {
            colon = true;
        }
        pos = pos + 1;
    }
    assert(s.take(n as int) =~= s);
    let last = close_component(depth, n - start, dots, Ghost(s.subrange(start as int, n as int)));
    let rooted = n > 0 && {
        let first = rel.get_char(0);
        first == '/' || first == '\\'
    };
    !rooted && !colon && last.is_some()
}

/// `rel` appended to the directory `base`, with a separator between them
/// unless `base` is empty or already ends in one.
pub open spec fn joined(base: Seq<char>, rel: Seq<char>) -> Seq<char> {
    if base.len() == 0 || is_separator(base.last()) {
        base + rel
    } else {
        base + seq!['\\'] + rel
    }
}

/// The path of a manifest entry below the base directory.
pub fn join_entry(base: &str, rel: &str) -> (r: String)
    ensures
        r@ == joined(base@, rel@),
{
    let n = base.unicode_len();
    let mut path = String::from_str(base);
    if n > 0 {
        let last = base.get_char(n - 1);
        if last != '/' && last != '\\' {
            proof {
                reveal_strlit("\\");
            }
            path.append("\\");
        }
    }
    path.append(rel);
    path
}

} // verus!
