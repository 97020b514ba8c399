//! Absolute, normalized paths: a root and the names below it.
//!
//! A path is written as its root followed by its segments, which the root's
//! separator keeps apart. A POSIX tree has the root `/`; a lettered drive has
//! a root such as `C:\`. The text of a path never ends in a separator unless
//! the path is a bare root, and never holds an empty segment, `.` or `..`.
//!
//! What a segment may hold depends on the root. Below `/` only the slash
//! parts segments, so a name there may hold a backslash. Below a drive both
//! the backslash and the slash do.

use crate::error::NavError;
use vstd::prelude::*;
use vstd::string::*;

verus! {

/// A letter that can name a drive.
pub open spec fn is_drive_letter(c: char) -> bool {
    ('A' <= c && c <= 'Z') || ('a' <= c && c <= 'z')
}

/// A character that parts segments below a root whose separator is `sep`:
/// the separator itself, and the slash, which parts segments below every
/// root.
pub open spec fn is_separator(c: char, sep: char) -> bool {
    c == sep || c == '/'
}

/// The text of a root: one slash, or a drive letter, a colon and a backslash.
pub open spec fn valid_root(root: Seq<char>) -> bool {
    ||| (root.len() == 1 && root[0] == '/')
    ||| (root.len() == 3 && is_drive_letter(root[0]) && root[1] == ':' && root[2] == '\\')
}

/// A name that can stand as one segment below a root whose separator is
/// `sep`: not empty, free of separators, and neither `.` nor `..`.
pub open spec fn valid_name(name: Seq<char>, sep: char) -> bool {
    &&& name.len() > 0
    &&& forall|i: int| 0 <= i < name.len() ==> !is_separator(#[trigger] name[i], sep)
    &&& !(name.len() == 1 && name[0] == '.')
    &&& !(name.len() == 2 && name[0] == '.' && name[1] == '.')
}

/// Every element is a name below a root whose separator is `sep`.
pub open spec fn all_names(names: Seq<Seq<char>>, sep: char) -> bool {
    forall|i: int| 0 <= i < names.len() ==> valid_name(#[trigger] names[i], sep)
}

/// The segments written one after another with `sep` between neighbours.
pub open spec fn join(segments: Seq<Seq<char>>, sep: char) -> Seq<char>
    decreases segments.len(),
{
    if segments.len() == 0 {
        Seq::empty()
    } else if segments.len() == 1 {
        segments[0]
    } else {
        join(segments.drop_last(), sep) + seq![sep] + segments.last()
    }
}

/// The pieces into which the occurrences of `sep` cut `text`. There is always
/// at least one piece; an empty text is one empty piece.
pub open spec fn split(text: Seq<char>, sep: char) -> Seq<Seq<char>>
    decreases text.len(),
{
    if text.len() == 0 {
        seq![Seq::empty()]
    } else {
        let before = split(text.drop_last(), sep);
        if text.last() == sep {
            before.push(Seq::empty())
        } else {
            before.drop_last().push(before.last().push(text.last()))
        }
    }
}

/// How many characters at the front of `text` form a root; 0 where none do.
pub open spec fn root_len(text: Seq<char>) -> nat {
    if text.len() >= 1 && text[0] == '/' {
        1
    } else if text.len() >= 3 && is_drive_letter(text[0]) && text[1] == ':' && text[2] == '\\' {
        3
    } else {
        0
    }
}

/// The pieces that follow the root of `text`, cut at the root's separator.
pub open spec fn pieces_after_root(text: Seq<char>) -> Seq<Seq<char>>
    recommends
        root_len(text) > 0,
{
    let k = root_len(text) as int;
    if text.len() == k {
        Seq::empty()
    } else {
        split(text.skip(k), text[k - 1])
    }
}

/// What a path is: the text of its root and its segments, outermost first.
/// `path_of_text` reads one from a text.
pub struct PathView {
    pub root: Seq<char>,
    pub segments: Seq<Seq<char>>,
}

impl PathView {
    /// The root is a root and every segment is a name below it.
    pub open spec fn wf(self) -> bool {
        &&& valid_root(self.root)
        &&& all_names(self.segments, self.separator())
    }

    /// The character that parts the segments: the last one of the root.
    pub open spec fn separator(self) -> char {
        self.root.last()
    }

    /// The path as it is written.
    pub open spec fn text(self) -> Seq<char> {
        self.root + join(self.segments, self.separator())
    }

    /// The path is a bare root.
    pub open spec fn is_root(self) -> bool {
        self.segments.len() == 0
    }

    /// The path one level down, through `name`.
    pub open spec fn child(self, name: Seq<char>) -> PathView {
        PathView { root: self.root, segments: self.segments.push(name) }
    }

    /// The path one level up.
    pub open spec fn parent(self) -> PathView
        recommends
            !self.is_root(),
    {
        PathView { root: self.root, segments: self.segments.drop_last() }
    }
}

/// The path that a text names: the root at its front and the pieces behind
/// it, where the text has a root and every piece is a name below that root.
pub open spec fn path_of_text(text: Seq<char>) -> Option<PathView> {
    let k = root_len(text) as int;
    if k > 0 && all_names(pieces_after_root(text), text[k - 1]) {
        Some(PathView { root: text.take(k), segments: pieces_after_root(text) })
    } else {
        None
    }
}

/// Cutting a text always leaves at least one piece.
pub proof fn lemma_split_has_piece(text: Seq<char>, sep: char)
    ensures
        split(text, sep).len() >= 1,
    decreases text.len(),
{
    if text.len() > 0 {
        lemma_split_has_piece(text.drop_last(), sep);
    }
}

/// A sequence with one more element holds names alone exactly when it did
/// before and the new element is a name.
pub proof fn lemma_all_names_push(names: Seq<Seq<char>>, name: Seq<char>, sep: char)
    ensures
        all_names(names.push(name), sep) == (all_names(names, sep) && valid_name(name, sep)),
{
    let longer = names.push(name);
    if all_names(longer, sep) {
        assert(valid_name(longer[names.len() as int], sep));
        assert forall|i: int| 0 <= i < names.len() implies valid_name(
            #[trigger] names[i],
            sep,
        ) by {
            assert(valid_name(longer[i], sep));
        }
    }
    if all_names(names, sep) && valid_name(name, sep) {
        assert forall|i: int| 0 <= i < longer.len() implies valid_name(
            #[trigger] longer[i],
            sep,
        ) by {
            if i < names.len() {
                assert(longer[i] == names[i]);
            }
        }
    }
}

/// Joining one more segment adds the separator and the segment, or the bare
/// segment where there was none before.
pub proof fn lemma_join_push(segments: Seq<Seq<char>>, name: Seq<char>, sep: char)
    ensures
        join(segments.push(name), sep) == if segments.len() == 0 {
            name
        } else {
            join(segments, sep) + seq![sep] + name
        },
{
    assert(segments.push(name).drop_last() =~= segments);
}

/// Joining the pieces of a text gives the text back.
pub proof fn lemma_join_of_split(text: Seq<char>, sep: char)
    ensures
        join(split(text, sep), sep) == text,
    decreases text.len(),
{
    if text.len() == 0 {
        assert(join(split(text, sep), sep) =~= text);
    } else {
        let front = text.drop_last();
        let before = split(front, sep);
        lemma_join_of_split(front, sep);
        lemma_split_has_piece(front, sep);
        if text.last() == sep {
            lemma_join_push(before, Seq::empty(), sep);
            assert(join(before, sep) + seq![sep] + Seq::<char>::empty() =~= text);
        } else {
            let grown = before.last().push(text.last());
            lemma_join_push(before.drop_last(), grown, sep);
            if before.len() == 1 {
                assert(before[0] == join(before, sep));
                assert(grown =~= text);
            } else {
                assert(join(before.drop_last(), sep) + seq![sep] + grown =~= (join(
                    before.drop_last(),
                    sep,
                ) + seq![sep] + before.last()).push(text.last()));
                assert(front.push(text.last()) =~= text);
            }
        }
    }
}

/// A tail without separators only lengthens the last piece.
pub proof fn lemma_split_plain_tail(text: Seq<char>, tail: Seq<char>, sep: char)
    requires
        forall|i: int| 0 <= i < tail.len() ==> tail[i] != sep,
    ensures
        split(text + tail, sep) == split(text, sep).drop_last().push(
            split(text, sep).last() + tail,
        ),
    decreases tail.len(),
{
    lemma_split_has_piece(text, sep);
    let before = split(text, sep);
    if tail.len() == 0 {
        assert(text + tail =~= text);
        assert(before.last() + tail =~= before.last());
        assert(before.drop_last().push(before.last()) =~= before);
    } else {
        let shorter = tail.drop_last();
        lemma_split_plain_tail(text, shorter, sep);
        assert((text + tail).drop_last() =~= text + shorter);
        assert((text + tail).last() == tail.last());
        let mid = before.drop_last().push(before.last() + shorter);
        assert(mid.drop_last() =~= before.drop_last());
        assert((before.last() + shorter).push(tail.last()) =~= before.last() + tail);
    }
}

/// Cutting the joined text of names gives the names back.
pub proof fn lemma_split_of_join(segments: Seq<Seq<char>>, sep: char)
    requires
        segments.len() >= 1,
        forall|i: int, j: int|
            0 <= i < segments.len() && 0 <= j < segments[i].len() ==> segments[i][j] != sep,
    ensures
        split(join(segments, sep), sep) == segments,
    decreases segments.len(),
{
    let empty = Seq::<char>::empty();
    let last = segments.last();
    if segments.len() == 1 {
        lemma_split_plain_tail(empty, last, sep);
        assert(empty + last =~= last);
        assert(split(empty, sep) =~= seq![empty]);
        assert(seq![empty].drop_last().push(empty + last) =~= segments);
    } else {
        let init = segments.drop_last();
        lemma_split_of_join(init, sep);
        let cut = join(init, sep).push(sep);
        assert(cut.drop_last() =~= join(init, sep));
        assert(split(cut, sep) == init.push(empty));
        lemma_split_plain_tail(cut, last, sep);
        assert(join(init, sep) + seq![sep] + last =~= cut + last);
        assert(init.push(empty).drop_last().push(empty + last) =~= segments);
    }
}

/// The text of a well-formed path shows its root and its segments.
pub proof fn lemma_text_parts(v: PathView)
    requires
        v.wf(),
    ensures
        root_len(v.text()) == v.root.len(),
        v.text().take(v.root.len() as int) == v.root,
        pieces_after_root(v.text()) == v.segments,
{
    let text = v.text();
    let k = v.root.len() as int;
    let sep = v.separator();
    let joined = join(v.segments, sep);
    assert(text.take(k) =~= v.root);
    assert(text.skip(k) =~= joined);
    assert(text[0] == v.root[0]);
    assert(text[k - 1] == sep);
    if v.segments.len() == 0 {
        assert(pieces_after_root(text) =~= v.segments);
    } else {
        assert(valid_name(v.segments.last(), sep));
        assert(joined.len() > 0);
        assert forall|i: int, j: int|
            0 <= i < v.segments.len() && 0 <= j < v.segments[i].len() implies v.segments[i][j]
            != sep by {
            assert(valid_name(v.segments[i], sep));
            assert(!is_separator(v.segments[i][j], sep));
        }
        lemma_split_of_join(v.segments, sep);
    }
}

/// Reading the text of a well-formed path gives the path back.
pub proof fn lemma_path_of_its_text(v: PathView)
    requires
        v.wf(),
    ensures
        path_of_text(v.text()) == Some(v),
{
    lemma_text_parts(v);
}

/// A text names a path exactly when it is the text of a well-formed path,
/// and then it names that path.
pub proof fn lemma_path_of_text(text: Seq<char>)
    ensures
        match path_of_text(text) {
            Some(v) => v.wf() && v.text() == text,
            None => forall|v: PathView| v.wf() ==> v.text() != text,
        },
{
    match path_of_text(text) {
        Some(v) => {
            let k = root_len(text) as int;
            let sep = text[k - 1];
            assert(v.separator() == sep);
            if text.len() == k {
                assert(v.text() =~= text);
            } else {
                lemma_join_of_split(text.skip(k), sep);
                assert(text.take(k) + text.skip(k) =~= text);
            }
        },
        None => {
            assert forall|v: PathView| v.wf() implies v.text() != text by {
                lemma_text_parts(v);
            }
        },
    }
}

/// Below a root the text of a well-formed path ends in the last character
/// of its last segment, and so never in a separator.
pub proof fn lemma_text_ends_in_a_name(v: PathView)
    requires
        v.wf(),
        !v.is_root(),
    ensures
        v.text().len() > v.root.len(),
        v.text().last() == v.segments.last().last(),
        !is_separator(v.text().last(), v.separator()),
{
    let last = v.segments.last();
    assert(valid_name(last, v.separator()));
    assert(!is_separator(last[last.len() - 1], v.separator()));
}

/// Two well-formed paths that are written alike are the same path.
pub proof fn lemma_text_is_injective(a: PathView, b: PathView)
    requires
        a.wf(),
        b.wf(),
        a.text() == b.text(),
    ensures
        a == b,
{
    lemma_text_parts(a);
    lemma_text_parts(b);
}

/// Going down through a name and up again leads back to where one stood.
pub proof fn lemma_descend_then_ascend(v: PathView, name: Seq<char>)
    requires
        v.wf(),
        valid_name(name, v.separator()),
    ensures
        v.child(name).wf(),
        !v.child(name).is_root(),
        v.child(name).parent() == v,
{
    assert(v.child(name).segments.drop_last() =~= v.segments);
}

/// Going down writes the separator exactly once between the parent's text
/// and the name, and not at all directly below a bare root, whose text ends
/// in it already.
pub proof fn lemma_child_text(v: PathView, name: Seq<char>)
    requires
        v.wf(),
    ensures
        v.child(name).text() == if v.is_root() {
            v.text() + name
        } else {
            v.text() + seq![v.separator()] + name
        },
{
    let sep = v.separator();
    lemma_join_push(v.segments, name, sep);
    if v.is_root() {
        assert(v.root + name =~= v.root + Seq::<char>::empty() + name);
        assert(join(v.segments, sep) =~= Seq::<char>::empty());
    } else {
        assert(v.root + (join(v.segments, sep) + seq![sep] + name) =~= v.root + join(
            v.segments,
            sep,
        ) + seq![sep] + name);
    }
}

/// The names that a vector of strings holds, each by its characters.
pub open spec fn names_of(segments: Seq<String>) -> Seq<Seq<char>> {
    Seq::new(segments.len(), |i: int| segments[i]@)
}

/// The characters of a text, one by one.
pub fn chars_of(text: &str) -> (chars: Vec<char>)
    ensures
        chars@ == text@,
{
    let mut chars: Vec<char> = Vec::new();
    for c in it: text.chars()
        invariant
            it.seq() == text@,
            chars@ == text@.take(it.index() as int),
    {
        chars.push(c);
    }
    chars
}

fn is_letter(c: char) -> (b: bool)
    ensures
        b == is_drive_letter(c),
{
    ('A' <= c && c <= 'Z') || ('a' <= c && c <= 'z')
}

/// Whether the characters from `from` up to `to` form a name below a root
/// whose separator is `sep`.
fn name_in(chars: &Vec<char>, from: usize, to: usize, sep: char) -> (ok: bool)
    requires
        from <= to <= chars.len(),
    ensures
        ok == valid_name(chars@.subrange(from as int, to as int), sep),
{
    let ghost name = chars@.subrange(from as int, to as int);
    if to == from {
        return false;
    }
    let mut i: usize = from;
    while i < to
        invariant
            from <= i <= to <= chars.len(),
            name == chars@.subrange(from as int, to as int),
            forall|k: int| 0 <= k < i - from ==> !is_separator(#[trigger] name[k], sep),
        decreases to - i,
    {
        if chars[i] == sep || chars[i] == '/' {
            assert(is_separator(name[i - from], sep));
            return false;
        }
        i += 1;
    }
    let len: usize = to - from;
    if len == 1 && chars[from] == '.' {
        assert(name[0] == '.');
        return false;
    }
    if len == 2 && chars[from] == '.' && chars[from + 1] == '.' {
        assert(name[0] == '.' && name[1] == '.');
        return false;
    }
    assert(name.len() == 1 ==> name[0] == chars@[from as int]);
    assert(name.len() == 2 ==> name[0] == chars@[from as int] && name[1] == chars@[from + 1]);
    true
}

/// Whether `name` can stand as one segment below a root whose separator is
/// `sep`.
pub fn is_valid_name(name: &str, sep: char) -> (ok: bool)
    ensures
        ok == valid_name(name@, sep),
{
    let chars = chars_of(name);
    assert(chars@.subrange(0, chars.len() as int) =~= name@);
    name_in(&chars, 0, chars.len(), sep)
}

/// A copy of the first `count` names.
fn copy_names(segments: &Vec<String>, count: usize) -> (copy: Vec<String>)
    requires
        count <= segments.len(),
    ensures
        names_of(copy@) == names_of(segments@).take(count as int),
{
    let mut copy: Vec<String> = Vec::new();
    let mut i: usize = 0;
    while i < count
        invariant
            i <= count <= segments.len(),
            names_of(copy@) == names_of(segments@).take(i as int),
        decreases count - i,
    {
        let ghost before = copy@;
        copy.push(segments[i].clone());
        assert(names_of(copy@) =~= names_of(before).push(segments@[i as int]@));
        assert(names_of(segments@).take(i + 1) =~= names_of(segments@).take(i as int).push(
            segments@[i as int]@,
        ));
        i += 1;
    }
    copy
}

/// An absolute, normalized path.
#[derive(Debug, PartialEq, Eq)]
pub struct Path {
    root: String,
    segments: Vec<String>,
}

impl View for Path {
    type V = PathView;

    closed spec fn view(&self) -> PathView {
        PathView { root: self.root@, segments: names_of(self.segments@) }
    }
}

impl Clone for Path {
    fn clone(&self) -> (copy: Self)
        ensures
            copy@ == self@,
    {
        proof {
            use_type_invariant(self);
        }
        let segments = copy_names(&self.segments, self.segments.len());
        assert(names_of(self.segments@).take(self.segments.len() as int) =~= names_of(
            self.segments@,
        ));
        Path { root: self.root.clone(), segments }
    }
}

impl Path {
    /// What holds of every path: its root is a root and its segments are names.
    #[verifier::type_invariant]
    pub open spec fn well_formed(&self) -> bool {
        self@.wf()
    }

    /// Reads a path from its text. The text is accepted exactly when it is
    /// the text of a well-formed path, which is then the one returned; a text
    /// that is relative, ends in a separator below the root, or holds an
    /// empty segment, `.` or `..` is turned away.
    pub fn parse(text: &str) -> (result: Result<Path, NavError>)
        ensures
            match result {
                Ok(path) => path_of_text(text@) == Some(path@) && path@.wf() && path@.text()
                    == text@,
                Err(e) => e == NavError::InvalidPath && path_of_text(text@) is None,
            },
    {
        let chars = chars_of(text);
        let n = chars.len();
        let k: usize = if n >= 1 && chars[0] == '/' {
            1
        } else if n >= 3 && is_letter(chars[0]) && chars[1] == ':' && chars[2] == '\\' {
            3
        } else {
            0
        };
        assert(k == root_len(text@));
        if k == 0 {
            return Err(NavError::InvalidPath);
        }
        let sep = chars[k - 1];
        let root = text.substring_char(0, k).to_owned();
        let ghost rest = text@.skip(k as int);
        let mut segments: Vec<String> = Vec::new();
        let mut all_valid = true;
        if n > k {
            let mut start: usize = k;
            let mut i: usize = k;
            proof {
                assert(text@.subrange(start as int, i as int) =~= Seq::<char>::empty());
                assert(rest.take(0) =~= Seq::<char>::empty());
                assert(names_of(segments@) =~= Seq::<Seq<char>>::empty());
                assert(split(rest.take(0), sep) =~= Seq::<Seq<char>>::empty().push(
                    Seq::<char>::empty(),
                ));
            }
            while i < n
                invariant
                    0 < k <= start <= i <= n,
                    n == chars.len(),
                    chars@ == text@,
                    rest == text@.skip(k as int),
                    split(rest.take(i - k), sep) == names_of(segments@).push(
                        text@.subrange(start as int, i as int),
                    ),
                    sep == chars@[k - 1],
                    all_valid == all_names(names_of(segments@), sep),
                decreases n - i,
            {
                let ghost done = names_of(segments@);
                let ghost current = text@.subrange(start as int, i as int);
                proof {
                    assert(rest.take(i + 1 - k).drop_last() =~= rest.take(i - k));
                    assert(rest.take(i + 1 - k).last() == chars@[i as int]);
                    assert(done.push(current).drop_last() =~= done);
                }
                if chars[i] == sep {
                    let ok = name_in(&chars, start, i, sep);
                    all_valid = all_valid && ok;
                    segments.push(text.substring_char(start, i).to_owned());
                    start = i + 1;
                    proof {
                        assert(names_of(segments@) =~= done.push(current));
                        lemma_all_names_push(done, current, sep);
                        assert(text@.subrange(start as int, i + 1) =~= Seq::<char>::empty());
                    }
                } else {
                    proof {
                        assert(text@.subrange(start as int, i + 1) =~= current.push(
                            chars@[i as int],
                        ));
                    }
                }
                i += 1;
            }
            let ghost done = names_of(segments@);
            let ok = name_in(&chars, start, n, sep);
            all_valid = all_valid && ok;
            segments.push(text.substring_char(start, n).to_owned());
            proof {
                assert(rest.take(n - k) =~= rest);
                assert(names_of(segments@) =~= done.push(text@.subrange(start as int, n as int)));
                lemma_all_names_push(done, text@.subrange(start as int, n as int), sep);
                assert(names_of(segments@) == pieces_after_root(text@));
            }
        } else {
            assert(names_of(segments@) =~= pieces_after_root(text@));
        }
        if all_valid {
            proof {
                assert(root@ =~= text@.take(k as int));
                lemma_path_of_text(text@);
            }
            Ok(Path { root, segments })
        } else {
            Err(NavError::InvalidPath)
        }
    }

    /// The character that parts the segments of this path.
    pub fn separator(&self) -> (sep: char)
        ensures
            sep == self@.separator(),
            sep == '/' || sep == '\\',
    {
        proof {
            use_type_invariant(self);
        }
        if self.root.as_str().unicode_len() == 1 {
            '/'
        } else {
            '\\'
        }
    }

    /// Whether `name` can stand as a segment of this path.
    pub fn admits(&self, name: &str) -> (ok: bool)
        ensures
            ok == valid_name(name@, self@.separator()),
    {
        is_valid_name(name, self.separator())
    }

    /// The path one level down, through `name`. A name that is empty, a dot
    /// name, or holds a separator is turned away. The child's text is the
    /// parent's with the name behind it, and the separator between the two
    /// unless the parent is a bare root.
    pub fn descend(&self, name: &str) -> (result: Result<Path, NavError>)
        ensures
            match result {
                Ok(child) => {
                    &&& valid_name(name@, self@.separator())
                    &&& child@ == self@.child(name@)
                    &&& child@.wf()
                    &&& child@.text() == if self@.is_root() {
                        self@.text() + name@
                    } else {
                        self@.text() + seq![self@.separator()] + name@
                    }
                },
                Err(e) => !valid_name(name@, self@.separator()) && e == NavError::InvalidName,
            },
    {
        proof {
            use_type_invariant(self);
            lemma_child_text(self@, name@);
        }
        if !self.admits(name) {
            return Err(NavError::InvalidName);
        }
        let mut segments = copy_names(&self.segments, self.segments.len());
        let ghost before = segments@;
        segments.push(name.to_owned());
        proof {
            assert(names_of(self.segments@).take(self.segments.len() as int) =~= names_of(
                self.segments@,
            ));
            assert(names_of(segments@) =~= names_of(before).push(name@));
            lemma_all_names_push(names_of(before), name@, self@.separator());
        }
        Ok(Path { root: self.root.clone(), segments })
    }

    /// The path that replaces this one on a jump to the location that `text`
    /// names. Where the jump leads does not depend on where it starts: the
    /// text alone decides, as in `parse`.
    pub fn jump(&self, text: &str) -> (result: Result<Path, NavError>)
        ensures
            match result {
                Ok(path) => path_of_text(text@) == Some(path@) && path@.wf() && path@.text()
                    == text@,
                Err(e) => e == NavError::InvalidPath && path_of_text(text@) is None,
            },
    {
        Path::parse(text)
    }

    /// The path one level up. A bare root has no parent.
    pub fn ascend(&self) -> (result: Result<Path, NavError>)
        ensures
            match result {
                Ok(parent) => !self@.is_root() && parent@ == self@.parent() && parent@.wf(),
                Err(e) => self@.is_root() && e == NavError::AtRoot,
            },
    {
        proof {
            use_type_invariant(self);
        }
        let n = self.segments.len();
        if n == 0 {
            return Err(NavError::AtRoot);
        }
        let segments = copy_names(&self.segments, n - 1);
        proof {
            let names = names_of(self.segments@);
            assert(names.take(n - 1) =~= names.drop_last());
            assert forall|i: int| 0 <= i < n - 1 implies valid_name(
                #[trigger] names.drop_last()[i],
                self@.separator(),
            ) by {
                assert(valid_name(names[i], self@.separator()));
            }
        }
        Ok(Path { root: self.root.clone(), segments })
    }

    /// The path as it is written.
    pub fn to_text(&self) -> (text: String)
        ensures
            text@ == self@.text(),
    {
        proof {
            use_type_invariant(self);
            reveal_strlit("/");
            reveal_strlit("\\");
        }
        let sep: &str = if self.root.as_str().unicode_len() == 1 {
            "/"
        } else {
            "\\"
        };
        assert(sep@ =~= seq![self@.separator()]);
        let ghost names = names_of(self.segments@);
        let mut text = self.root.clone();
        let n = self.segments.len();
        let mut i: usize = 0;
        assert(text@ =~= self.root@ + join(names.take(0), self@.separator()));
        while i < n
            invariant
                i <= n == self.segments.len(),
                names == names_of(self.segments@),
                sep@ == seq![self@.separator()],
                self@.root == self.root@,
                text@ == self.root@ + join(names.take(i as int), self@.separator()),
            decreases n - i,
        {
            let ghost before = text@;
            if i > 0 {
                text.append(sep);
            }
            text.append(self.segments[i].as_str());
            proof {
                lemma_join_push(names.take(i as int), names[i as int], self@.separator());
                assert(names.take(i + 1) =~= names.take(i as int).push(names[i as int]));
                assert(text@ =~= self.root@ + join(names.take(i + 1), self@.separator()));
            }
            i += 1;
        }
        assert(names.take(n as int) =~= names);
        text
    }

    /// Whether the path is a bare root.
    pub fn is_root(&self) -> (at_root: bool)
        ensures
            at_root == self@.is_root(),
            self@.wf(),
    {
        proof {
            use_type_invariant(self);
        }
        self.segments.len() == 0
    }

    /// How many segments lie between the root and the path's end.
    pub fn depth(&self) -> (depth: usize)
        ensures
            depth == self@.segments.len(),
    {
        self.segments.len()
    }

    /// The text of the root under which the path lives.
    pub fn root(&self) -> (root: &str)
        ensures
            root@ == self@.root,
            valid_root(root@),
    {
        proof {
            use_type_invariant(self);
        }
        self.root.as_str()
    }

    /// The last segment; a bare root has none.
    pub fn name(&self) -> (name: Option<&str>)
        ensures
            match name {
                Some(last) => !self@.is_root() && last@ == self@.segments.last(),
                None => self@.is_root(),
            },
    {
        let n = self.segments.len();
        if n == 0 {
            None
        } else {
            Some(self.segments[n - 1].as_str())
        }
    }

    /// The bare root named by `text`: the root of a volume.
    pub fn volume_root(text: &str) -> (result: Result<Path, NavError>)
        ensures
            match result {
                Ok(path) => valid_root(text@) && path@ == (PathView {
                    root: text@,
                    segments: Seq::empty(),
                }),
                Err(e) => !valid_root(text@) && e == NavError::InvalidPath,
            },
    {
        let ghost bare = PathView { root: text@, segments: Seq::empty() };
        proof {
            if valid_root(text@) {
                assert(bare.text() =~= text@);
                lemma_path_of_its_text(bare);
            }
        }
        match Path::parse(text) {
            Ok(path) => {
                if path.segments.len() == 0 {
                    proof {
                        assert(path@.text() =~= path@.root);
                        assert(path@.segments =~= Seq::empty());
                    }
                    Ok(path)
                } else {
                    Err(NavError::InvalidPath)
                }
            },
            Err(e) => Err(e),
        }
    }
}

} // verus!
