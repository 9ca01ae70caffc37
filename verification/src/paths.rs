//! Paths as texts, as the platforms read them.

use crate::failure::{Error, Failure};
use crate::gather::views;
use crate::text::{
    chars_of, has_char, is_char, is_either, joined, law_pieces, lemma_pieces_clean,
    lemma_same_pieces, lemma_split_joined, pieces, split_at_char, split_at_either, text_of, texts,
};
use vstd::prelude::*;

verus! {

/// How a platform reads paths.
#[derive(Debug, Clone, Copy, PartialEq, Eq, Structural)]
pub enum PathStyle {
    /// A slash separates parts, and a path that starts with one starts at the root.
    Unix,
    /// A slash or a backslash separates parts, and a path may start with a drive or a share.
    Windows,
}

/// The character that is written between parts.
pub open spec fn separator(style: PathStyle) -> char {
    match style {
        PathStyle::Unix => '/',
        PathStyle::Windows => '\\',
    }
}

/// The character separates parts.
pub open spec fn separates(style: PathStyle, c: char) -> bool {
    c == '/' || c == separator(style)
}

/// The text starts with a drive: a letter and a colon.
pub open spec fn has_drive(s: Seq<char>) -> bool {
    s.len() >= 2 && ('a' <= s[0] <= 'z' || 'A' <= s[0] <= 'Z') && s[1] == ':'
}

/// The path starts with a separator.
pub open spec fn is_rooted(style: PathStyle, s: Seq<char>) -> bool {
    s.len() > 0 && separates(style, s[0])
}

/// The path starts with the mark of a verbatim path, of which nothing is read but the parts.
pub open spec fn is_verbatim(style: PathStyle, s: Seq<char>) -> bool {
    &&& style == PathStyle::Windows
    &&& s.len() >= 4
    &&& s[0] == '\\'
    &&& s[1] == '\\'
    &&& s[2] == '?'
    &&& s[3] == '\\'
}

/// Where the part that begins at `at` ends: at the next separator, in a verbatim path at the next
/// backslash, or at the end.
pub open spec fn part_end(s: Seq<char>, at: int, verbatim: bool) -> int
    decreases s.len() - at,
{
    if at < 0 || at >= s.len() {
        s.len() as int
    } else if s[at] == '\\' || (!verbatim && s[at] == '/') {
        at
    } else {
        part_end(s, at + 1, verbatim)
    }
}

/// Where two parts end, a server and a share, that begin at `at`; where the share is empty, the end
/// of the server.
pub open spec fn share_end(s: Seq<char>, at: int, verbatim: bool) -> int {
    let server = part_end(s, at, verbatim);
    let share = part_end(s, server + 1, verbatim);
    if share > server + 1 {
        share
    } else {
        server
    }
}

/// How many characters a path starts with before its root: a drive, a share, a device, or what a
/// verbatim path has in their place.
pub open spec fn prefix_length(style: PathStyle, s: Seq<char>) -> int {
    if style == PathStyle::Unix {
        0
    } else if is_verbatim(style, s) {
        if s.len() >= 8 && s[4] == 'U' && s[5] == 'N' && s[6] == 'C' && separates(style, s[7]) {
            share_end(s, 8, true)
        } else if has_drive(s.skip(4)) && (s.len() == 6 || separates(style, s[6])) {
            6
        } else {
            part_end(s, 4, true)
        }
    } else if s.len() >= 2 && separates(style, s[0]) && separates(style, s[1]) {
        if s.len() >= 4 && s[2] == '.' && separates(style, s[3]) {
            part_end(s, 4, false)
        } else {
            let server = part_end(s, 2, false);
            if server > 2 && share_end(s, 2, false) > server {
                share_end(s, 2, false)
            } else {
                0
            }
        }
    } else if has_drive(s) {
        2
    } else {
        0
    }
}

/// A part can be written right behind the path: the path is empty, ends with a separator, or is a
/// drive alone.
pub open spec fn is_open(style: PathStyle, base: Seq<char>) -> bool {
    ||| base.len() == 0
    ||| separates(style, base.last())
    ||| style == PathStyle::Windows && has_drive(base) && base.len() == 2
}

/// A part of a path.
#[derive(Debug)]
pub enum PathPart<T> {
    /// What stands before the root.
    Prefix(T),
    /// The root.
    Root,
    /// A single dot.
    Here,
    /// Two dots.
    Up,
    /// A name.
    Name(T),
}

impl View for PathPart<String> {
    type V = PathPart<Seq<char>>;

    open spec fn view(&self) -> PathPart<Seq<char>> {
        match *self {
            PathPart::Prefix(text) => PathPart::Prefix(text@),
            PathPart::Root => PathPart::Root,
            PathPart::Here => PathPart::Here,
            PathPart::Up => PathPart::Up,
            PathPart::Name(text) => PathPart::Name(text@),
        }
    }
}

/// The parts that stand between separators. Empty ones do not count, nor do single dots but in a
/// verbatim path.
pub open spec fn parts_between(between: Seq<Seq<char>>, verbatim: bool) -> Seq<
    PathPart<Seq<char>>,
>
    decreases between.len(),
{
    if between.len() == 0 {
        Seq::empty()
    } else {
        let before = parts_between(between.drop_last(), verbatim);
        let last = between.last();
        if last.len() == 0 || (last == "."@ && !verbatim) {
            before
        } else if last == "."@ {
            before.push(PathPart::Here)
        } else if last == ".."@ {
            before.push(PathPart::Up)
        } else {
            before.push(PathPart::Name(last))
        }
    }
}

/// The parts of a path behind its prefix.
pub open spec fn parts_behind(s: Seq<char>, verbatim: bool) -> Seq<PathPart<Seq<char>>> {
    let cut = if verbatim {
        is_char('\\')
    } else {
        is_either('/', '\\')
    };
    if s.len() > 0 && (s[0] == '/' || s[0] == '\\') {
        seq![PathPart::Root] + parts_between(pieces(s.skip(1), cut), verbatim)
    } else {
        parts_between(pieces(s, cut), verbatim)
    }
}

/// The parts of a verbatim path.
pub open spec fn verbatim_parts(base: Seq<char>) -> Seq<PathPart<Seq<char>>> {
    let n = prefix_length(PathStyle::Windows, base);
    seq![PathPart::Prefix(base.take(n))] + parts_behind(base.skip(n), true)
}

/// Where one gets by one part more: the root leads back to the prefix, two dots lead back over a
/// name, a name leads on.
pub open spec fn walk(way: Seq<PathPart<Seq<char>>>, part: PathPart<Seq<char>>) -> Seq<
    PathPart<Seq<char>>,
> {
    match part {
        PathPart::Root => way.take(1).push(part),
        PathPart::Here => way,
        PathPart::Up => if way.len() > 0 && way.last() is Name {
            way.drop_last()
        } else {
            way
        },
        _ => way.push(part),
    }
}

/// Where one gets by the parts, one after the other.
pub open spec fn walk_all(way: Seq<PathPart<Seq<char>>>, parts: Seq<PathPart<Seq<char>>>) -> Seq<
    PathPart<Seq<char>>,
>
    decreases parts.len(),
{
    if parts.len() == 0 {
        way
    } else {
        walk(walk_all(way, parts.drop_last()), parts.last())
    }
}

/// A part as it is written.
pub open spec fn part_text(part: PathPart<Seq<char>>) -> Seq<char> {
    match part {
        PathPart::Prefix(text) => text,
        PathPart::Root => "\\"@,
        PathPart::Here => "."@,
        PathPart::Up => ".."@,
        PathPart::Name(text) => text,
    }
}

/// The parts as they are written: with backslashes between them, but none beside the root.
pub open spec fn written(way: Seq<PathPart<Seq<char>>>) -> Seq<char>
    decreases way.len(),
{
    if way.len() == 0 {
        Seq::empty()
    } else if way.len() == 1 {
        part_text(way.last())
    } else if way.last() is Root || way[way.len() - 2] is Root {
        written(way.drop_last()) + part_text(way.last())
    } else {
        written(way.drop_last()) + "\\"@ + part_text(way.last())
    }
}

/// The path `part` seen from the directory `base`. A part with a prefix of its own stands alone; one
/// that starts at the root keeps the prefix of `base`; and from a verbatim path the part is walked
/// step by step.
pub open spec fn path_below(style: PathStyle, base: Seq<char>, part: Seq<char>) -> Seq<char> {
    if prefix_length(style, part) > 0 {
        part
    } else if is_verbatim(style, base) && part.len() > 0 {
        written(walk_all(verbatim_parts(base), parts_behind(part, false)))
    } else if is_rooted(style, part) {
        base.take(prefix_length(style, base)) + part
    } else if is_open(style, base) {
        base + part
    } else {
        base.push(separator(style)) + part
    }
}

/// A directory as it is written before what lies below it.
pub open spec fn start_of(style: PathStyle, dir: Seq<char>) -> Seq<char> {
    if is_verbatim(style, dir) {
        let parts = verbatim_parts(dir);
        if parts.last() is Root {
            written(parts)
        } else {
            written(parts) + "\\"@
        }
    } else if is_open(style, dir) {
        dir
    } else {
        dir.push(separator(style))
    }
}

/// The path that the parts make, each seen from those before it.
pub open spec fn path_of(style: PathStyle, parts: Seq<Seq<char>>) -> Seq<char>
    decreases parts.len(),
{
    if parts.len() == 0 {
        Seq::empty()
    } else {
        path_below(style, path_of(style, parts.drop_last()), parts.last())
    }
}

/// The parts of a path that lead somewhere: neither empty nor a single dot.
pub open spec fn leading_parts(parts: Seq<Seq<char>>) -> Seq<Seq<char>>
    decreases parts.len(),
{
    if parts.len() == 0 {
        parts
    } else if parts.last().len() == 0 || parts.last() == "."@ {
        leading_parts(parts.drop_last())
    } else {
        leading_parts(parts.drop_last()).push(parts.last())
    }
}

/// `raw`, a path with slashes between its parts, as a path of the platform; none where it is empty,
/// holds a backslash, starts at the root or with a drive of the platform, goes up or leads nowhere.
pub open spec fn safe_path(style: PathStyle, raw: Seq<char>) -> Option<Seq<char>> {
    let parts = pieces(raw, is_char('/'));
    if raw.len() == 0 || raw.contains('\\') || raw[0] == '/' || (style == PathStyle::Windows
        && has_drive(raw)) || parts.contains(".."@) || leading_parts(parts).len() == 0 {
        None
    } else {
        Some(path_of(style, leading_parts(parts)))
    }
}

/// The parts that lead somewhere are parts of the path, and lead somewhere.
proof fn lemma_leading_parts(parts: Seq<Seq<char>>)
    ensures
        forall|i: int|
            0 <= i < leading_parts(parts).len() ==> {
                &&& parts.contains(#[trigger] leading_parts(parts)[i])
                &&& leading_parts(parts)[i].len() > 0
                &&& leading_parts(parts)[i] != "."@
            },
    decreases parts.len(),
{
    if parts.len() > 0 {
        let head = parts.drop_last();
        lemma_leading_parts(head);
        assert forall|i: int| 0 <= i < leading_parts(parts).len() implies {
            &&& parts.contains(#[trigger] leading_parts(parts)[i])
            &&& leading_parts(parts)[i].len() > 0
            &&& leading_parts(parts)[i] != "."@
        } by {
            let p = leading_parts(parts)[i];
            if i < leading_parts(head).len() {
                assert(p == leading_parts(head)[i]);
                let k = choose|k: int| 0 <= k < head.len() && head[k] == p;
                assert(parts[k] == p);
            } else {
                assert(parts[parts.len() - 1] == p);
            }
        }
    }
}

/// Parts that all lead somewhere stay as they are.
proof fn lemma_leading_parts_keep(parts: Seq<Seq<char>>)
    requires
        forall|i: int| 0 <= i < parts.len() ==> (#[trigger] parts[i]).len() > 0 && parts[i] != "."@,
    ensures
        leading_parts(parts) == parts,
    decreases parts.len(),
{
    if parts.len() > 0 {
        let head = parts.drop_last();
        assert forall|i: int| 0 <= i < head.len() implies (#[trigger] head[i]).len() > 0 && head[i]
            != "."@ by {
            assert(head[i] == parts[i]);
        }
        lemma_leading_parts_keep(head);
        assert(parts[parts.len() - 1] == parts.last());
        assert(head.push(parts.last()) =~= parts);
    }
}

/// The part leads one step down: it is not empty, neither a single dot nor two, and holds no
/// separator.
pub open spec fn leads_down(part: Seq<char>) -> bool {
    &&& part.len() > 0
    &&& part != "."@
    &&& part != ".."@
    &&& !part.contains('/')
    &&& !part.contains('\\')
}

/// None of the parts starts with a drive of the platform.
pub open spec fn drive_free(style: PathStyle, parts: Seq<Seq<char>>) -> bool {
    style == PathStyle::Windows ==> forall|i: int|
        0 <= i < parts.len() ==> !has_drive(#[trigger] parts[i])
}

/// Parts that lead down make the path that has separators between them.
proof fn lemma_path_of(style: PathStyle, parts: Seq<Seq<char>>)
    requires
        parts.len() > 0,
        forall|i: int| 0 <= i < parts.len() ==> leads_down(#[trigger] parts[i]),
        drive_free(style, parts),
    ensures
        ({
            let path = path_of(style, parts);
            &&& path == joined(parts, seq![separator(style)])
            &&& path.len() > 0
            &&& !separates(style, path[0])
            &&& !separates(style, path.last())
            &&& style == PathStyle::Windows ==> !has_drive(path)
            &&& style == PathStyle::Unix ==> !path.contains('\\')
        }),
    decreases parts.len(),
{
    let path = path_of(style, parts);
    let last = parts.last();
    assert(leads_down(parts[parts.len() - 1]));
    assert(last.contains(last[0]));
    assert(last.contains(last.last()));
    assert(style == PathStyle::Windows ==> !has_drive(parts[parts.len() - 1]));
    if parts.len() == 1 {
        assert(parts.drop_last() =~= Seq::<Seq<char>>::empty());
        let none = Seq::<char>::empty();
        assert(path_of(style, parts.drop_last()) == none);
        assert(none + last =~= last);
        assert(path == last);
    } else {
        let head = parts.drop_last();
        assert forall|i: int| 0 <= i < head.len() implies leads_down(#[trigger] head[i]) by {
            assert(head[i] == parts[i]);
        }
        assert forall|i: int|
            style == PathStyle::Windows && 0 <= i < head.len() implies !has_drive(
            #[trigger] head[i],
        ) by {
            assert(head[i] == parts[i]);
        }
        lemma_path_of(style, head);
        let before = path_of(style, head);
        assert(path == before.push(separator(style)) + last);
        assert(before.push(separator(style)) =~= before + seq![separator(style)]);
        assert(path[0] == before[0]);
        assert(path.last() == last.last());
        assert(path[1] == if before.len() > 1 {
            before[1]
        } else {
            separator(style)
        });
        if style == PathStyle::Unix {
            assert forall|k: int| 0 <= k < path.len() implies path[k] != '\\' by {
                if k < before.len() {
                    assert(before.contains(before[k]));
                } else if k > before.len() {
                    assert(last.contains(last[k - before.len() - 1]));
                }
            }
        }
    }
}

/// The names of parts.
spec fn names(parts: Seq<Seq<char>>) -> Seq<PathPart<Seq<char>>> {
    Seq::new(parts.len(), |i: int| PathPart::Name(parts[i]))
}

/// Parts that lead down are names.
proof fn lemma_names_between(parts: Seq<Seq<char>>)
    requires
        forall|i: int| 0 <= i < parts.len() ==> leads_down(#[trigger] parts[i]),
    ensures
        parts_between(parts, false) == names(parts),
    decreases parts.len(),
{
    if parts.len() > 0 {
        let head = parts.drop_last();
        assert forall|i: int| 0 <= i < head.len() implies leads_down(#[trigger] head[i]) by {
            assert(head[i] == parts[i]);
        }
        lemma_names_between(head);
        assert(leads_down(parts[parts.len() - 1]));
        assert(names(head).push(PathPart::Name(parts.last())) =~= names(parts));
    } else {
        assert(names(parts) =~= Seq::<PathPart<Seq<char>>>::empty());
    }
}

/// Names lead on from any way, and are written behind it.
proof fn lemma_names_lead_on(way: Seq<PathPart<Seq<char>>>, parts: Seq<Seq<char>>)
    requires
        way.len() > 0,
        parts.len() > 0,
    ensures
        walk_all(way, names(parts)) == way + names(parts),
        written(way + names(parts)) == (if way.last() is Root {
            written(way)
        } else {
            written(way) + "\\"@
        }) + joined(parts, seq!['\\']),
    decreases parts.len(),
{
    reveal_strlit("\\");
    let head = parts.drop_last();
    let all = way + names(parts);
    let start = if way.last() is Root {
        written(way)
    } else {
        written(way) + "\\"@
    };
    assert(names(parts).drop_last() =~= names(head));
    assert(names(parts).last() == PathPart::Name(parts.last()));
    assert(all.drop_last() =~= way + names(head));
    assert(all.last() == PathPart::Name(parts.last()));
    assert((way + names(head)).push(PathPart::Name(parts.last())) =~= all);
    if parts.len() == 1 {
        assert(names(head) =~= Seq::<PathPart<Seq<char>>>::empty());
        assert(way + names(head) =~= way);
        assert(all[all.len() - 2] == way.last());
        assert(joined(parts, seq!['\\']) == parts.last());
        assert(walk_all(way, names(head)) == way);
    } else {
        lemma_names_lead_on(way, head);
        assert(all[all.len() - 2] == PathPart::Name(head.last()));
        assert("\\"@ =~= seq!['\\']);
        let before = joined(head, seq!['\\']);
        assert(start + before + "\\"@ + parts.last() =~= start + (before + seq!['\\']
            + parts.last()));
    }
}

/// Parts that lead down, written behind a directory, are the path seen from it.
proof fn lemma_below(style: PathStyle, dir: Seq<char>, parts: Seq<Seq<char>>)
    requires
        parts.len() > 0,
        forall|i: int| 0 <= i < parts.len() ==> leads_down(#[trigger] parts[i]),
        drive_free(style, parts),
    ensures
        path_below(style, dir, path_of(style, parts)) == start_of(style, dir) + path_of(
            style,
            parts,
        ),
{
    lemma_path_of(style, parts);
    let path = path_of(style, parts);
    assert(prefix_length(style, path) == 0);
    if is_verbatim(style, dir) {
        let cut = is_either('/', '\\');
        assert forall|i: int| 0 <= i < parts.len() implies !(#[trigger] parts[i]).contains(
            '\\',
        ) by {
            assert(leads_down(parts[i]));
        }
        lemma_split_joined(parts, '\\');
        lemma_no_slash(parts);
        assert forall|i: int| 0 <= i < path.len() implies cut(#[trigger] path[i]) == is_char(
            '\\',
        )(path[i]) by {
            assert(path.contains(path[i]));
        }
        lemma_same_pieces(path, cut, is_char('\\'));
        lemma_names_between(parts);
        assert(parts_behind(path, false) == names(parts));
        lemma_names_lead_on(verbatim_parts(dir), parts);
    }
}

/// Parts without slashes make a text without slashes, with backslashes between them.
proof fn lemma_no_slash(parts: Seq<Seq<char>>)
    requires
        forall|i: int| 0 <= i < parts.len() ==> leads_down(#[trigger] parts[i]),
    ensures
        !joined(parts, seq!['\\']).contains('/'),
    decreases parts.len(),
{
    if parts.len() > 0 {
        let last = parts.last();
        let whole = joined(parts, seq!['\\']);
        assert(leads_down(parts[parts.len() - 1]));
        if parts.len() > 1 {
            let head = parts.drop_last();
            assert forall|i: int| 0 <= i < head.len() implies leads_down(#[trigger] head[i]) by {
                assert(head[i] == parts[i]);
            }
            lemma_no_slash(head);
            let before = joined(head, seq!['\\']);
            assert forall|k: int| 0 <= k < whole.len() implies whole[k] != '/' by {
                if k < before.len() {
                    assert(before.contains(before[k]));
                } else if k > before.len() {
                    assert(last.contains(last[k - before.len() - 1]));
                }
            }
        }
    }
}

/// The parts of a path found safe all lead down.
proof fn lemma_safe_parts(style: PathStyle, raw: Seq<char>)
    requires
        safe_path(style, raw) is Some,
    ensures
        forall|i: int|
            0 <= i < leading_parts(pieces(raw, is_char('/'))).len() ==> leads_down(
                #[trigger] leading_parts(pieces(raw, is_char('/')))[i],
            ),
{
    let cut = is_char('/');
    let all = pieces(raw, cut);
    let parts = leading_parts(all);
    lemma_pieces_clean(raw, cut);
    lemma_leading_parts(all);
    assert forall|i: int| 0 <= i < parts.len() implies leads_down(#[trigger] parts[i]) by {
        let p = parts[i];
        assert(all.contains(p));
        let k = choose|k: int| 0 <= k < all.len() && all[k] == p;
        if p.contains('/') {
            let j = choose|j: int| 0 <= j < p.len() && p[j] == '/';
            assert(!cut(all[k][j]));
        }
        if p.contains('\\') {
            let j = choose|j: int| 0 <= j < p.len() && p[j] == '\\';
            assert(raw.contains(all[k][j]));
        }
    }
}

/// A path found safe never leaves the directory it starts from: it starts neither at the root nor
/// with a drive, and its parts, those of `raw` that lead somewhere, all lead down. Left aside are
/// paths with a drive among their parts, where drives have a meaning: there a drive takes the place
/// of all that is before it.
pub proof fn law_safe_path_stays_below(style: PathStyle, raw: Seq<char>)
    requires
        safe_path(style, raw) is Some,
        drive_free(style, leading_parts(pieces(raw, is_char('/')))),
    ensures
        ({
            let path = safe_path(style, raw)->0;
            let parts = pieces(path, is_char(separator(style)));
            &&& path.len() > 0
            &&& !is_rooted(style, path)
            &&& style == PathStyle::Windows ==> !has_drive(path)
            &&& parts == leading_parts(pieces(raw, is_char('/')))
            &&& forall|i: int| 0 <= i < parts.len() ==> leads_down(#[trigger] parts[i])
        }),
{
    let parts = leading_parts(pieces(raw, is_char('/')));
    lemma_safe_parts(style, raw);
    lemma_path_of(style, parts);
    assert forall|i: int| 0 <= i < parts.len() implies !(#[trigger] parts[i]).contains(
        separator(style),
    ) by {
        assert(leads_down(parts[i]));
    }
    lemma_split_joined(parts, separator(style));
}

/// Where the slash is the separator, a path found safe is found safe again, and comes out as it is.
/// Where it is the backslash, so is a path of one part.
pub proof fn law_safe_path_settles(style: PathStyle, raw: Seq<char>)
    requires
        safe_path(style, raw) is Some,
        style == PathStyle::Windows ==> {
            let parts = leading_parts(pieces(raw, is_char('/')));
            parts.len() == 1 && !has_drive(parts[0])
        },
    ensures
        safe_path(style, safe_path(style, raw)->0) == safe_path(style, raw),
{
    let kept = leading_parts(pieces(raw, is_char('/')));
    lemma_safe_parts(style, raw);
    law_safe_path_stays_below(style, raw);
    lemma_path_of(style, kept);
    let path = safe_path(style, raw)->0;
    let parts = pieces(path, is_char('/'));
    if style == PathStyle::Windows {
        assert(leads_down(kept[0]));
        assert(joined(kept, seq![separator(style)]) == kept[0]);
        assert(joined(kept, seq!['/']) == kept[0]);
        assert forall|i: int| 0 <= i < kept.len() implies !(#[trigger] kept[i]).contains('/') by {
            assert(leads_down(kept[i]));
        }
        lemma_split_joined(kept, '/');
    }
    assert(parts == kept);
    assert forall|i: int| 0 <= i < parts.len() implies (#[trigger] parts[i]).len() > 0 && parts[i]
        != "."@ && parts[i] != ".."@ by {
        assert(leads_down(kept[i]));
    }
    lemma_leading_parts_keep(parts);
}

/// The path goes from the directory straight down: it is the directory, as it is written before what
/// lies below it, and then parts that all lead down.
pub open spec fn lies_below(style: PathStyle, dir: Seq<char>, path: Seq<char>) -> bool {
    let start = start_of(style, dir);
    let parts = pieces(path.skip(start.len() as int), is_char(separator(style)));
    &&& start.len() < path.len()
    &&& path.take(start.len() as int) == start
    &&& forall|i: int| 0 <= i < parts.len() ==> leads_down(#[trigger] parts[i])
}

/// Seen from a directory, a path found safe lies below that directory. Left aside are paths with a
/// drive among their parts, where drives have a meaning.
pub proof fn law_safe_path_lies_below(style: PathStyle, dir: Seq<char>, raw: Seq<char>)
    requires
        safe_path(style, raw) is Some,
        drive_free(style, leading_parts(pieces(raw, is_char('/')))),
    ensures
        lies_below(style, dir, path_below(style, dir, safe_path(style, raw)->0)),
{
    law_safe_path_stays_below(style, raw);
    lemma_safe_parts(style, raw);
    lemma_below(style, dir, leading_parts(pieces(raw, is_char('/'))));
    let start = start_of(style, dir);
    let safe = safe_path(style, raw)->0;
    let path = path_below(style, dir, safe);
    assert(path == start + safe);
    assert(path.take(start.len() as int) =~= start);
    assert(path.skip(start.len() as int) =~= safe);
}

/// Seen from a directory, a name lies directly below that directory.
pub proof fn lemma_name_below(style: PathStyle, dir: Seq<char>, name: Seq<char>)
    requires
        leads_down(name),
        style == PathStyle::Windows ==> !has_drive(name),
    ensures
        path_below(style, dir, name) == start_of(style, dir) + name,
{
    let parts = seq![name];
    lemma_path_of(style, parts);
    lemma_below(style, dir, parts);
    assert(joined(parts, seq![separator(style)]) == name);
}

/// A path that stays below the directory it starts from.
pub fn safe_relative_path(raw: &str, style: PathStyle) -> (r: Result<String, Error>)
    ensures
        match r {
            Ok(path) => safe_path(style, raw@) == Some(path@),
            Err(e) => safe_path(style, raw@) is None && e@ == Failure::UnsafePath(raw@),
        },
{
    if raw.is_empty() || has_char(raw, '\\') {
        return Err(Failure::UnsafePath(raw.to_owned()));
    }
    if raw.get_char(0) == '/' || (style == PathStyle::Windows && starts_with_drive(raw)) {
        return Err(Failure::UnsafePath(raw.to_owned()));
    }
    let parts = split_at_char(raw, '/');
    let ghost all = texts(parts@);
    let mut safe = String::new();
    let mut found: bool = false;
    assert(safe@ =~= path_of(style, leading_parts(all.take(0))));
    for i in 0..parts.len()
        invariant
            raw@.len() > 0,
            !raw@.contains('\\'),
            raw@[0] != '/',
            !(style == PathStyle::Windows && has_drive(raw@)),
            all == texts(parts@),
            all == pieces(raw@, is_char('/')),
            safe@ == path_of(style, leading_parts(all.take(i as int))),
            found == (leading_parts(all.take(i as int)).len() > 0),
            forall|j: int| 0 <= j < i ==> all[j] != ".."@,
    {
        let part = parts[i].as_str();
        proof {
            assert(all[i as int] == part@);
            assert(all.take(i + 1).drop_last() =~= all.take(i as int));
        }
        if *part == *".." {
            assert(all.contains(".."@));
            return Err(Failure::UnsafePath(raw.to_owned()));
        }
        if !part.is_empty() && *part != *"." {
            safe = join_path(safe.as_str(), part, style);
            found = true;
            proof {
                let before = leading_parts(all.take(i as int));
                assert(before.push(part@).drop_last() =~= before);
            }
        }
    }
    assert(all.take(all.len() as int) =~= all);
    if !found {
        return Err(Failure::UnsafePath(raw.to_owned()));
    }
    Ok(safe)
}

/// Whether a character separates parts.
fn is_separator(c: char, style: PathStyle) -> (r: bool)
    ensures
        r == separates(style, c),
{
    c == '/' || (style == PathStyle::Windows && c == '\\')
}

/// Whether a text starts with a drive.
fn starts_with_drive(s: &str) -> (r: bool)
    ensures
        r == has_drive(s@),
{
    if s.unicode_len() < 2 {
        return false;
    }
    is_letter(s.get_char(0)) && s.get_char(1) == ':'
}

/// Whether a character is a letter of a drive.
fn is_letter(c: char) -> (r: bool)
    ensures
        r == ('a' <= c <= 'z' || 'A' <= c <= 'Z'),
{
    ('a' <= c && c <= 'z') || ('A' <= c && c <= 'Z')
}

/// Whether a path starts with a separator.
fn starts_at_root(s: &str, style: PathStyle) -> (r: bool)
    ensures
        r == is_rooted(style, s@),
{
    !s.is_empty() && is_separator(s.get_char(0), style)
}

/// Where the part that begins at `at` ends.
fn find_part_end(s: &Vec<char>, at: usize, verbatim: bool) -> (r: usize)
    requires
        at <= s@.len(),
    ensures
        r == part_end(s@, at as int, verbatim),
        at <= r <= s@.len(),
{
    let mut i: usize = at;
    while i < s.len() && !(s[i] == '\\' || (!verbatim && s[i] == '/'))
        invariant
            at <= i <= s@.len(),
            part_end(s@, at as int, verbatim) == part_end(s@, i as int, verbatim),
        decreases s@.len() - i,
    {
        i += 1;
    }
    i
}

/// Where two parts end, a server and a share, that begin at `at`.
fn find_share_end(s: &Vec<char>, at: usize, verbatim: bool) -> (r: usize)
    requires
        at <= s@.len(),
    ensures
        r == share_end(s@, at as int, verbatim),
        at <= r <= s@.len(),
{
    let server = find_part_end(s, at, verbatim);
    if server == s.len() {
        return server;
    }
    let share = find_part_end(s, server + 1, verbatim);
    if share > server + 1 {
        share
    } else {
        server
    }
}

/// Whether a path starts with the mark of a verbatim path.
fn starts_verbatim(s: &Vec<char>, style: PathStyle) -> (r: bool)
    ensures
        r == is_verbatim(style, s@),
{
    style == PathStyle::Windows && s.len() >= 4 && s[0] == '\\' && s[1] == '\\' && s[2] == '?'
        && s[3] == '\\'
}

/// How many characters a path starts with before its root.
fn find_prefix_length(s: &Vec<char>, style: PathStyle) -> (r: usize)
    ensures
        r == prefix_length(style, s@),
        r <= s@.len(),
{
    if style == PathStyle::Unix {
        return 0;
    }
    if starts_verbatim(s, style) {
        if s.len() >= 8 && s[4] == 'U' && s[5] == 'N' && s[6] == 'C' && is_separator(s[7], style) {
            return find_share_end(s, 8, true);
        }
        if s.len() >= 6 && is_letter(s[4]) && s[5] == ':' && (s.len() == 6 || is_separator(
            s[6],
            style,
        )) {
            return 6;
        }
        return find_part_end(s, 4, true);
    }
    if s.len() >= 2 && is_separator(s[0], style) && is_separator(s[1], style) {
        if s.len() >= 4 && s[2] == '.' && is_separator(s[3], style) {
            return find_part_end(s, 4, false);
        }
        let server = find_part_end(s, 2, false);
        let share = find_share_end(s, 2, false);
        return if server > 2 && share > server {
            share
        } else {
            0
        };
    }
    if s.len() >= 2 && is_letter(s[0]) && s[1] == ':' {
        2
    } else {
        0
    }
}

/// The parts that stand between separators.
fn find_parts_between(between: &Vec<String>, verbatim: bool) -> (r: Vec<PathPart<String>>)
    ensures
        views(r@) == parts_between(texts(between@), verbatim),
{
    let ghost all = texts(between@);
    let mut out: Vec<PathPart<String>> = Vec::new();
    assert(views(out@) =~= parts_between(all.take(0), verbatim));
    for i in 0..between.len()
        invariant
            all == texts(between@),
            views(out@) == parts_between(all.take(i as int), verbatim),
    {
        let here = between[i].as_str();
        let ghost before = views(out@);
        proof {
            assert(all.take(i + 1).drop_last() =~= all.take(i as int));
            assert(all.take(i + 1).last() == here@);
        }
        if !(here.is_empty() || (*here == *"." && !verbatim)) {
            let part = if *here == *"." {
                PathPart::Here
            } else if *here == *".." {
                PathPart::Up
            } else {
                PathPart::Name(here.to_owned())
            };
            let ghost added = part@;
            out.push(part);
            assert(views(out@) =~= before.push(added));
        }
    }
    assert(all.take(all.len() as int) =~= all);
    out
}

/// The parts of a path behind its prefix, which ends at `from`.
fn find_parts_behind(s: &Vec<char>, from: usize, verbatim: bool) -> (r: Vec<PathPart<String>>)
    requires
        from <= s@.len(),
    ensures
        views(r@) == parts_behind(s@.skip(from as int), verbatim),
{
    let ghost whole = s@.skip(from as int);
    let mut out: Vec<PathPart<String>> = Vec::new();
    let mut at: usize = from;
    if from < s.len() && (s[from] == '/' || s[from] == '\\') {
        out.push(PathPart::Root);
        at = from + 1;
    }
    let rest = text_of(s, at, s.len());
    let ghost first = views(out@);
    proof {
        if at == from {
            assert(rest@ =~= whole);
            assert(first =~= Seq::<PathPart<Seq<char>>>::empty());
        } else {
            assert(rest@ =~= whole.skip(1));
            assert(first =~= seq![PathPart::Root]);
        }
    }
    let between = if verbatim {
        split_at_char(rest.as_str(), '\\')
    } else {
        split_at_either(rest.as_str(), '/', '\\')
    };
    let mut more = find_parts_between(&between, verbatim);
    let ghost added = views(more@);
    out.append(&mut more);
    assert(views(out@) =~= first + added);
    assert(at == from ==> first + added =~= added);
    out
}

/// Where one gets by the parts, one after the other.
fn walk_on(way: Vec<PathPart<String>>, parts: Vec<PathPart<String>>) -> (r: Vec<PathPart<String>>)
    requires
        way@.len() > 0,
        way@[0]@ is Prefix,
    ensures
        views(r@) == walk_all(views(way@), views(parts@)),
{
    let ghost start = views(way@);
    let ghost all = views(parts@);
    let mut out = way;
    assert(all.take(0) =~= Seq::<PathPart<Seq<char>>>::empty());
    for part in it: parts
        invariant
            it.seq() == parts@,
            all == views(parts@),
            out@.len() > 0,
            out@[0]@ is Prefix,
            views(out@) == walk_all(start, all.take(it.index())),
    {
        let ghost before = views(out@);
        let ghost next = part@;
        proof {
            assert(all.take(it.index() + 1).drop_last() =~= all.take(it.index()));
            assert(all.take(it.index() + 1).last() == next);
        }
        match part {
            PathPart::Root => {
                out.truncate(1);
                assert(views(out@) =~= before.take(1));
                out.push(PathPart::Root);
                assert(views(out@) =~= before.take(1).push(next));
            },
            PathPart::Here => {},
            PathPart::Up => {
                if out.len() > 0 && is_name(&out[out.len() - 1]) {
                    assert(before.last() == out@[out@.len() - 1]@);
                    let _ = out.pop();
                    assert(views(out@) =~= before.drop_last());
                } else {
                    assert(out@.len() > 0 ==> before.last() == out@[out@.len() - 1]@);
                }
            },
            other => {
                out.push(other);
                assert(views(out@) =~= before.push(next));
            },
        }
    }
    assert(all.take(all.len() as int) =~= all);
    out
}

fn is_name(part: &PathPart<String>) -> (r: bool)
    ensures
        r == (part@ is Name),
{
    match part {
        PathPart::Name(_) => true,
        _ => false,
    }
}

fn is_root(part: &PathPart<String>) -> (r: bool)
    ensures
        r == (part@ is Root),
{
    match part {
        PathPart::Root => true,
        _ => false,
    }
}

/// The parts as they are written.
fn write_out(way: &Vec<PathPart<String>>) -> (r: String)
    ensures
        r@ == written(views(way@)),
{
    let ghost all = views(way@);
    let mut out = String::new();
    assert(out@ =~= written(all.take(0)));
    for i in 0..way.len()
        invariant
            all == views(way@),
            out@ == written(all.take(i as int)),
    {
        proof {
            let next = all.take(i + 1);
            assert(next.drop_last() =~= all.take(i as int));
            assert(next.last() == way@[i as int]@);
            assert(i > 0 ==> next[next.len() - 2] == way@[i - 1]@);
        }
        let ghost before = out@;
        if i > 0 && !is_root(&way[i]) && !is_root(&way[i - 1]) {
            out.append("\\");
        }
        match &way[i] {
            PathPart::Prefix(text) => {
                out.append(text.as_str());
            },
            PathPart::Root => {
                out.append("\\");
            },
            PathPart::Here => {
                out.append(".");
            },
            PathPart::Up => {
                out.append("..");
            },
            PathPart::Name(text) => {
                out.append(text.as_str());
            },
        }
        assert(i == 0 ==> before =~= Seq::<char>::empty());
        assert(i == 0 ==> out@ =~= part_text(all[0]));
    }
    assert(all.take(all.len() as int) =~= all);
    out
}

/// Whether a part can be written right behind a path.
fn ends_open(base: &str, style: PathStyle) -> (r: bool)
    ensures
        r == is_open(style, base@),
{
    if base.is_empty() {
        return true;
    }
    let length: usize = base.unicode_len();
    is_separator(base.get_char(length - 1), style) || (style == PathStyle::Windows
        && length == 2 && starts_with_drive(base))
}

/// The path `part` seen from the directory `base`.
pub fn join_path(base: &str, part: &str, style: PathStyle) -> (r: String)
    ensures
        r@ == path_below(style, base@, part@),
{
    let part_chars = chars_of(part);
    if find_prefix_length(&part_chars, style) > 0 {
        return part.to_owned();
    }
    let base_chars = chars_of(base);
    let prefix: usize = find_prefix_length(&base_chars, style);
    let before = text_of(&base_chars, 0, prefix);
    assert(before@ =~= base@.take(prefix as int));
    if starts_verbatim(&base_chars, style) && part_chars.len() > 0 {
        let mut way: Vec<PathPart<String>> = Vec::new();
        way.push(PathPart::Prefix(before));
        let mut more = find_parts_behind(&base_chars, prefix, true);
        way.append(&mut more);
        assert(views(way@) =~= verbatim_parts(base@));
        let steps = find_parts_behind(&part_chars, 0, false);
        assert(part@.skip(0) =~= part@);
        let walked = walk_on(way, steps);
        return write_out(&walked);
    }
    let mut out = if starts_at_root(part, style) {
        before
    } else {
        base.to_owned()
    };
    if !starts_at_root(part, style) && !ends_open(base, style) {
        match style {
            PathStyle::Unix => {
                out.push('/');
            },
            PathStyle::Windows => {
                out.push('\\');
            },
        }
    }
    out.append(part);
    out
}

/// The parts of a path that lead somewhere are those that are neither empty nor a single dot, in
/// their order.
pub proof fn law_leading_parts(parts: Seq<Seq<char>>)
    ensures
        leading_parts(parts) == parts.filter(|p: Seq<char>| p.len() > 0 && p != seq!['.']),
    decreases parts.len(),
{
    reveal(Seq::filter);
    reveal_strlit(".");
    assert("."@ =~= seq!['.']);
    if parts.len() > 0 {
        law_leading_parts(parts.drop_last());
    }
}

/// Which paths are refused: the empty one; one with a backslash; one that starts with a slash, or with
/// a drive where drives have a meaning; one with a part of two dots; and one whose parts are all
/// empty or single dots.
pub proof fn law_refused_paths(style: PathStyle, raw: Seq<char>)
    ensures
        safe_path(style, raw) is None <==> {
            let parts = pieces(raw, is_char('/'));
            ||| raw.len() == 0
            ||| raw.contains('\\')
            ||| raw[0] == '/'
            ||| style == PathStyle::Windows && raw.len() >= 2 && raw[1] == ':' && ('a' <= raw[0]
                <= 'z' || 'A' <= raw[0] <= 'Z')
            ||| parts.contains(seq!['.', '.'])
            ||| forall|i: int|
                0 <= i < parts.len() ==> (#[trigger] parts[i]).len() == 0 || parts[i] == seq!['.']
        },
{
    reveal_strlit(".");
    reveal_strlit("..");
    assert("."@ =~= seq!['.']);
    assert(".."@ =~= seq!['.', '.']);
    let parts = pieces(raw, is_char('/'));
    lemma_nothing_leads(parts);
}

proof fn lemma_nothing_leads(parts: Seq<Seq<char>>)
    ensures
        leading_parts(parts).len() == 0 <==> forall|i: int|
            0 <= i < parts.len() ==> (#[trigger] parts[i]).len() == 0 || parts[i] == "."@,
    decreases parts.len(),
{
    if parts.len() > 0 {
        let head = parts.drop_last();
        lemma_nothing_leads(head);
        if leading_parts(parts).len() == 0 {
            assert forall|i: int| 0 <= i < parts.len() implies (#[trigger] parts[i]).len() == 0
                || parts[i] == "."@ by {
                if i < head.len() {
                    assert(head[i] == parts[i]);
                }
            }
        }
        if forall|i: int|
            0 <= i < parts.len() ==> (#[trigger] parts[i]).len() == 0 || parts[i] == "."@ {
            assert forall|i: int| 0 <= i < head.len() implies (#[trigger] head[i]).len() == 0
                || head[i] == "."@ by {
                assert(head[i] == parts[i]);
            }
            assert(parts[parts.len() - 1].len() == 0 || parts[parts.len() - 1] == "."@);
        }
    }
}

/// With slashes as separators: a path from the root stays as it is; another is written behind the
/// directory, with one slash between them unless the directory is empty or ends with one. A path
/// found safe is its leading parts with slashes between them.
pub proof fn law_paths_with_slashes(dir: Seq<char>, part: Seq<char>, raw: Seq<char>)
    ensures
        path_below(PathStyle::Unix, dir, seq!['/'] + part) == seq!['/'] + part,
        (part.len() == 0 || part[0] != '/') ==> {
            &&& path_below(PathStyle::Unix, Seq::empty(), part) == part
            &&& path_below(PathStyle::Unix, dir.push('/'), part) == dir + seq!['/'] + part
            &&& dir.len() > 0 && dir.last() != '/' ==> path_below(PathStyle::Unix, dir, part)
                == dir + seq!['/'] + part
        },
        safe_path(PathStyle::Unix, raw) matches Some(path) ==> path == joined(
            leading_parts(pieces(raw, is_char('/'))),
            seq!['/'],
        ),
{
    let rooted = seq!['/'] + part;
    assert(dir.take(0) + rooted =~= rooted);
    assert(Seq::<char>::empty() + part =~= part);
    assert(dir.push('/') =~= dir + seq!['/']);
    assert(dir.push('/').last() == '/');
    if safe_path(PathStyle::Unix, raw) is Some {
        lemma_safe_parts(PathStyle::Unix, raw);
        lemma_path_of(PathStyle::Unix, leading_parts(pieces(raw, is_char('/'))));
    }
}

/// With drives: a path with a drive of its own stays as it is; one from the root keeps the drive of
/// the directory; another is written behind the directory, with a backslash between them unless the
/// directory ends with a separator or is a drive alone.
pub proof fn law_paths_with_drives(letter: char, dir: Seq<char>, part: Seq<char>, base: Seq<char>)
    requires
        'a' <= letter <= 'z' || 'A' <= letter <= 'Z',
    ensures
        path_below(PathStyle::Windows, base, seq![letter, ':'] + part) == seq![letter, ':'] + part,
        (part.len() == 0 || (part[0] != '/' && part[0] != '\\')) ==> {
            &&& path_below(PathStyle::Windows, seq![letter, ':'] + dir, seq!['\\'] + part)
                == seq![letter, ':', '\\'] + part
            &&& path_below(PathStyle::Windows, seq![letter, ':'] + dir, seq!['/'] + part)
                == seq![letter, ':', '/'] + part
            &&& !has_drive(part) && dir.len() > 0 && dir.last() != '/' && dir.last() != '\\'
                ==> path_below(PathStyle::Windows, seq![letter, ':'] + dir, part) == seq![
                letter,
                ':',
            ] + dir + seq!['\\'] + part
            &&& !has_drive(part) ==> path_below(PathStyle::Windows, seq![letter, ':'], part)
                == seq![letter, ':'] + part
        },
{
    let drive = seq![letter, ':'];
    let own = drive + part;
    assert(own[0] == letter && own[1] == ':');
    assert(has_drive(own));
    let from = drive + dir;
    assert(from[0] == letter && from[1] == ':');
    assert(has_drive(from));
    assert(from.take(2) =~= drive);
    assert(prefix_length(PathStyle::Windows, from) == 2);
    let back = seq!['\\'] + part;
    let slash = seq!['/'] + part;
    assert(back[0] == '\\' && slash[0] == '/');
    if part.len() > 0 {
        assert(back[1] == part[0] && slash[1] == part[0]);
    }
    assert(drive + back =~= seq![letter, ':', '\\'] + part);
    assert(drive + slash =~= seq![letter, ':', '/'] + part);
    if dir.len() > 0 {
        assert(from.last() == dir.last());
        assert(from.push('\\') + part =~= drive + dir + seq!['\\'] + part);
    }
    assert(drive[0] == letter && drive[1] == ':');
}

/// With shares: a path with a share of its own stays as it is, and one from the root keeps the share
/// of the directory; two separators without a server and a share behind them are no share.
pub proof fn law_paths_with_shares(
    server: Seq<char>,
    share: Seq<char>,
    rest: Seq<char>,
    part: Seq<char>,
    letter: char,
)
    requires
        server.len() > 0,
        share.len() > 0,
        !server.contains('/') && !server.contains('\\'),
        !share.contains('/') && !share.contains('\\'),
        server != seq!['?'],
        server != seq!['.'],
        'a' <= letter <= 'z' || 'A' <= letter <= 'Z',
        part.len() == 0 || (part[0] != '/' && part[0] != '\\'),
    ensures
        ({
            let place = seq!['\\', '\\'] + server + seq!['\\'] + share;
            let dir = place + seq!['\\'] + rest;
            &&& prefix_length(PathStyle::Windows, dir) == place.len()
            &&& path_below(PathStyle::Windows, dir, seq!['\\'] + part) == place + seq!['\\']
                + part
            &&& path_below(PathStyle::Windows, seq![letter, ':'] + rest, dir) == dir
        }),
        path_below(PathStyle::Windows, seq![letter, ':'] + rest, seq!['\\', '\\'] + server)
            == seq![letter, ':', '\\', '\\'] + server,
{
    let style = PathStyle::Windows;
    let place = seq!['\\', '\\'] + server + seq!['\\'] + share;
    let dir = place + seq!['\\'] + rest;
    let n = server.len() as int;
    assert(dir =~= seq!['\\', '\\'] + server + (seq!['\\'] + share + seq!['\\'] + rest));
    lemma_server_ends(server, seq!['\\'] + share + seq!['\\'] + rest, dir);
    assert(dir =~= (seq!['\\', '\\'] + server + seq!['\\']) + share + (seq!['\\'] + rest));
    lemma_part_ends(seq!['\\', '\\'] + server + seq!['\\'], share, seq!['\\'] + rest);
    assert(share_end(dir, 2, false) == place.len());
    lemma_plain_server(server, seq!['\\'] + share + seq!['\\'] + rest);
    let rooted = seq!['\\'] + part;
    assert(rooted[0] == '\\');
    if part.len() > 0 {
        assert(rooted[1] == part[0]);
    }
    assert(prefix_length(style, rooted) == 0);
    assert(dir.take(place.len() as int) =~= place);
    assert(place + rooted =~= place + seq!['\\'] + part);
    let none = Seq::<char>::empty();
    let alone = seq!['\\', '\\'] + server;
    assert(alone =~= seq!['\\', '\\'] + server + none);
    lemma_server_ends(server, none, alone);
    lemma_plain_server(server, none);
    assert(part_end(alone, alone.len() as int + 1, false) == alone.len());
    assert(prefix_length(style, alone) == 0);
    let drive = seq![letter, ':'];
    let from = drive + rest;
    assert(from[0] == letter && from[1] == ':');
    assert(from.take(2) =~= drive);
    assert(drive + alone =~= seq![letter, ':', '\\', '\\'] + server);
    assert(alone[0] == '\\');
}

/// A part without separators ends where what follows it begins.
proof fn lemma_part_ends(before: Seq<char>, part: Seq<char>, after: Seq<char>)
    requires
        !part.contains('/') && !part.contains('\\'),
        after.len() > 0 ==> after[0] == '\\' || after[0] == '/',
    ensures
        part_end(before + part + after, before.len() as int, false) == before.len() + part.len(),
    decreases part.len(),
{
    let whole = before + part + after;
    if part.len() == 0 {
        if after.len() > 0 {
            assert(whole[before.len() as int] == after[0]);
        }
    } else {
        let rest = part.skip(1);
        assert(whole[before.len() as int] == part[0]);
        assert(part.contains(part[0]));
        assert(!rest.contains('/') && !rest.contains('\\')) by {
            assert forall|i: int| 0 <= i < rest.len() implies rest[i] != '/' && rest[i]
                != '\\' by {
                assert(part.contains(part[i + 1]));
            }
        }
        lemma_part_ends(before.push(part[0]), rest, after);
        assert(before.push(part[0]) + rest + after =~= whole);
    }
}

proof fn lemma_server_ends(server: Seq<char>, after: Seq<char>, whole: Seq<char>)
    requires
        !server.contains('/') && !server.contains('\\'),
        after.len() > 0 ==> after[0] == '\\' || after[0] == '/',
        whole == seq!['\\', '\\'] + server + after,
    ensures
        part_end(whole, 2, false) == 2 + server.len(),
{
    lemma_part_ends(seq!['\\', '\\'], server, after);
}

/// A server that is neither a question mark nor a dot starts no other prefix.
proof fn lemma_plain_server(server: Seq<char>, after: Seq<char>)
    requires
        server.len() > 0,
        !server.contains('/') && !server.contains('\\'),
        server != seq!['?'],
        server != seq!['.'],
    ensures
        ({
            let s = seq!['\\', '\\'] + server + after;
            &&& s.len() >= 2 && s[0] == '\\' && s[1] == '\\'
            &&& !(s.len() >= 4 && s[2] == '?' && s[3] == '\\')
            &&& !(s.len() >= 4 && s[2] == '.' && (s[3] == '\\' || s[3] == '/'))
        }),
{
    let s = seq!['\\', '\\'] + server + after;
    assert(s[2] == server[0]);
    if server.len() == 1 {
        assert(server =~= seq![server[0]]);
    } else {
        assert(s[3] == server[1]);
        assert(server.contains(server[1]));
    }
}

/// From a verbatim directory, a single dot leads nowhere, two dots lead back over the name before
/// them, and the root leads back to what the directory starts with before its root.
pub proof fn law_paths_from_verbatim(dir: Seq<char>, name: Seq<char>)
    requires
        is_verbatim(PathStyle::Windows, dir),
        leads_down(name),
        !has_drive(name),
    ensures
        path_below(PathStyle::Windows, dir, name) == start_of(PathStyle::Windows, dir) + name,
        path_below(PathStyle::Windows, dir, seq!['.', '/'] + name) == path_below(
            PathStyle::Windows,
            dir,
            name,
        ),
        path_below(PathStyle::Windows, dir, name + seq!['/', '.', '.']) == written(
            verbatim_parts(dir),
        ),
        path_below(PathStyle::Windows, dir, seq!['\\'] + name) == dir.take(
            prefix_length(PathStyle::Windows, dir),
        ) + seq!['\\'] + name,
{
    let style = PathStyle::Windows;
    let cut = is_either('/', '\\');
    let way = verbatim_parts(dir);
    reveal_strlit(".");
    reveal_strlit("..");
    reveal_strlit("\\");
    assert("."@ =~= seq!['.']);
    assert(".."@ =~= seq!['.', '.']);
    assert("\\"@ =~= seq!['\\']);
    lemma_name_below(style, dir, name);
    assert(name.contains(name[0]));
    // a dot before the name
    let dotted = seq!['.', '/'] + name;
    lemma_cut_name(name);
    lemma_cut_name(seq!['.']);
    lemma_cut_name(seq!['.', '.']);
    lemma_cut_of_two(seq!['.'], name);
    assert(dotted =~= seq!['.'].push('/') + name);
    assert(pieces(dotted, cut) =~= seq![seq!['.'], name]);
    assert(dotted[0] == '.' && dotted[1] == '/');
    lemma_two_parts(seq!['.'], name);
    assert(prefix_length(style, dotted) == 0);
    // the name alone
    assert(prefix_length(style, name) == 0);
    lemma_one_part(name);
    lemma_one_part(seq!['.']);
    lemma_one_part(seq!['.', '.']);
    assert(Seq::<PathPart<Seq<char>>>::empty() + seq![PathPart::Name(name)] =~= seq![
        PathPart::Name(name),
    ]);
    assert(seq![PathPart::Name(name)] + seq![PathPart::Up] =~= seq![
        PathPart::Name(name),
        PathPart::Up,
    ]);
    assert(seq!['.', '.'] != seq!['.']) by {
        assert(seq!['.', '.'].len() != seq!['.'].len());
    }
    assert(parts_behind(name, false) == seq![PathPart::Name(name)]);
    assert(parts_behind(dotted, false) == seq![PathPart::Name(name)]);
    // two dots behind the name
    let back = name + seq!['/', '.', '.'];
    lemma_cut_of_two(name, seq!['.', '.']);
    assert(back =~= name.push('/') + seq!['.', '.']);
    assert(pieces(back, cut) =~= seq![name, seq!['.', '.']]);
    lemma_two_parts(name, seq!['.', '.']);
    assert(back[0] == name[0]);
    assert(back[1] == if name.len() > 1 {
        name[1]
    } else {
        '/'
    });
    assert(prefix_length(style, back) == 0);
    let steps = seq![PathPart::Name(name), PathPart::Up];
    assert(parts_behind(back, false) == steps);
    assert(steps.drop_last() =~= seq![PathPart::Name(name)]);
    assert(seq![PathPart::Name(name)].drop_last() =~= Seq::<PathPart<Seq<char>>>::empty());
    assert(walk_all(way, Seq::empty()) == way);
    assert(walk_all(way, seq![PathPart::Name(name)]) == way.push(PathPart::Name(name)));
    assert(walk_all(way, steps) == way.push(PathPart::Name(name)).drop_last());
    assert(way.push(PathPart::Name(name)).drop_last() =~= way);
    // from the root
    let rooted = seq!['\\'] + name;
    assert(rooted[0] == '\\' && rooted[1] == name[0]);
    assert(rooted.skip(1) =~= name);
    assert(prefix_length(style, rooted) == 0);
    let from_root = seq![PathPart::Root, PathPart::Name(name)];
    assert(seq![PathPart::Root] + seq![PathPart::Name(name)] =~= from_root);
    assert(parts_behind(rooted, false) == from_root);
    assert(from_root.drop_last() =~= seq![PathPart::Root]);
    assert(seq![PathPart::Root].drop_last() =~= Seq::<PathPart<Seq<char>>>::empty());
    let prefix = dir.take(prefix_length(style, dir));
    let short = seq![PathPart::Prefix(prefix), PathPart::Root];
    assert(way.take(1).push(PathPart::Root) =~= short);
    assert(walk_all(way, seq![PathPart::Root]) == short);
    assert(walk_all(way, from_root) == short.push(PathPart::Name(name)));
    let whole = short.push(PathPart::Name(name));
    assert(whole.drop_last() =~= short);
    assert(short.drop_last() =~= seq![PathPart::Prefix(prefix)]);
    assert(written(seq![PathPart::Prefix(prefix)]) == prefix);
    assert(written(short) == prefix + "\\"@);
    assert(written(whole) == prefix + "\\"@ + name);
}

/// A text without separators is one piece.
proof fn lemma_cut_name(name: Seq<char>)
    requires
        !name.contains('/') && !name.contains('\\'),
    ensures
        pieces(name, is_either('/', '\\')) == seq![name],
{
    law_pieces(name, name, '/');
    assert forall|i: int| 0 <= i < name.len() implies is_either('/', '\\')(#[trigger] name[i])
        == is_char('/')(name[i]) by {
        assert(name.contains(name[i]));
    }
    lemma_same_pieces(name, is_either('/', '\\'), is_char('/'));
}

/// Two texts without separators with a slash between them are two pieces.
proof fn lemma_cut_of_two(a: Seq<char>, b: Seq<char>)
    requires
        !a.contains('/') && !a.contains('\\'),
        !b.contains('/') && !b.contains('\\'),
    ensures
        pieces(a.push('/') + b, is_either('/', '\\')) == seq![a, b],
{
    let whole = a.push('/') + b;
    law_pieces(a, b, '/');
    law_pieces(b, a, '/');
    assert(a + seq!['/'] + b =~= whole);
    assert forall|i: int| 0 <= i < whole.len() implies is_either('/', '\\')(#[trigger] whole[i])
        == is_char('/')(whole[i]) by {
        if i < a.len() {
            assert(a.contains(a[i]));
        } else if i > a.len() {
            assert(b.contains(b[i - a.len() - 1]));
        }
    }
    lemma_same_pieces(whole, is_either('/', '\\'), is_char('/'));
    assert(seq![a] + seq![b] =~= seq![a, b]);
}

/// The parts that one piece makes.
proof fn lemma_one_part(a: Seq<char>)
    ensures
        parts_between(seq![a], false) == if a.len() == 0 || a == "."@ {
            Seq::<PathPart<Seq<char>>>::empty()
        } else if a == ".."@ {
            seq![PathPart::Up]
        } else {
            seq![PathPart::Name(a)]
        },
{
    assert(seq![a].drop_last() =~= Seq::<Seq<char>>::empty());
    assert(parts_between(seq![a].drop_last(), false) == Seq::<PathPart<Seq<char>>>::empty());
    assert(Seq::<PathPart<Seq<char>>>::empty().push(PathPart::Up) =~= seq![PathPart::Up]);
    assert(Seq::<PathPart<Seq<char>>>::empty().push(PathPart::Name(a)) =~= seq![
        PathPart::Name(a),
    ]);
}

/// The parts that two pieces make are those of the one, then those of the other.
proof fn lemma_two_parts(a: Seq<char>, b: Seq<char>)
    ensures
        parts_between(seq![a, b], false) == parts_between(seq![a], false) + parts_between(
            seq![b],
            false,
        ),
{
    lemma_one_part(a);
    lemma_one_part(b);
    assert(seq![a, b].drop_last() =~= seq![a]);
    assert(parts_between(seq![a, b], false) =~= parts_between(seq![a], false) + parts_between(
        seq![b],
        false,
    ));
}

} // verus!
