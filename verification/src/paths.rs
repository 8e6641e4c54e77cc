//! File paths as character strings: the last name in a path, its stem and
//! extension, the directory part, and joining a name onto a directory.
//!
//! Paths are read as the target system reads them (`std::path`). On systems
//! other than Windows only `/` separates pieces and `\` is an ordinary
//! character. On Windows a path may begin with a prefix: a drive (`C:`), a
//! share (`\\server\share`), a device (`\\.\COM42`), or a verbatim prefix
//! (`\\?\name`, `\\?\C:`, `\\?\UNC\server\share`). After a verbatim prefix only
//! `\` separates and `.` pieces are kept; elsewhere on Windows both `/` and `\`
//! separate, and empty and `.` pieces name no file.

use vstd::prelude::*;
use crate::text::{chars_of, is_ascii_char, is_ascii_text, push_char, same_text, string_of};

verus! {

/// How the target system writes paths.
#[derive(Debug, Clone, Copy, PartialEq, Eq, Structural)]
pub enum PathStyle {
    /// Only `/` separates pieces.
    Unix,
    /// `/` and `\` separate pieces; a prefix may lead.
    Windows,
}

/// The style of the system whose name `std::env::consts::OS` spells as `os`.
pub open spec fn style_of_os(os: Seq<char>) -> PathStyle {
    if os == "windows"@ {
        PathStyle::Windows
    } else {
        PathStyle::Unix
    }
}

impl PathStyle {
    /// The path style of the operating system named `os`.
    pub fn for_os(os: &str) -> (r: PathStyle)
        ensures
            r == style_of_os(os@),
    {
        if same_text(os, "windows") {
            PathStyle::Windows
        } else {
            PathStyle::Unix
        }
    }
}

/// How the part of a path after its prefix is split into pieces.
#[derive(Debug, Clone, Copy, PartialEq, Eq, Structural)]
pub enum Syntax {
    /// Only `/` separates.
    Unix,
    /// `/` and `\` separate; `.` pieces name nothing.
    Windows,
    /// After a verbatim prefix: only `\` separates (a `/` right after the
    /// prefix stands for the root), and `.` pieces are kept.
    Verbatim,
}

/// A separator of the syntax.
pub open spec fn is_sep(x: Syntax, c: char) -> bool {
    (c == '/' && !(x is Verbatim)) || (c == '\\' && !(x is Unix))
}

/// Whether the character at `i` of a path body separates pieces.
pub open spec fn sep_at(x: Syntax, s: Seq<char>, i: int) -> bool {
    is_sep(x, s[i]) || (x is Verbatim && i == 0 && s[i] == '/')
}

/// Whether the last character of a leading part of a body separates pieces.
pub open spec fn closes(x: Syntax, s: Seq<char>) -> bool {
    s.len() > 0 && sep_at(x, s, s.len() - 1)
}

/// A separator byte of the style, as `std::path::is_separator` reads it.
pub open spec fn is_sep_byte(style: PathStyle, c: char) -> bool {
    c == '/' || (style is Windows && c == '\\')
}

/// The separator the style writes between a directory and a name.
pub open spec fn sep_char(style: PathStyle) -> char {
    if style is Windows {
        '\\'
    } else {
        '/'
    }
}

/// An ASCII letter, as a drive letter.
pub open spec fn is_drive_letter(c: char) -> bool {
    (65 <= (c as u32) <= 90) || (97 <= (c as u32) <= 122)
}

/// A separator inside a Windows prefix: only `\` in a verbatim one.
pub open spec fn prefix_sep(verbatim: bool, c: char) -> bool {
    c == '\\' || (!verbatim && c == '/')
}

/// The length of the leading piece of `s`, up to the first prefix separator.
pub open spec fn piece_len(s: Seq<char>, verbatim: bool) -> int
    decreases s.len(),
{
    if s.len() == 0 || prefix_sep(verbatim, s[0]) {
        0
    } else {
        1 + piece_len(s.drop_first(), verbatim)
    }
}

/// The length of the share name that follows the server name at the start
/// of `a` (nothing when the server name ends `a`).
pub open spec fn share_len(a: Seq<char>, verbatim: bool) -> int {
    let server = piece_len(a, verbatim);
    if server < a.len() {
        piece_len(a.skip(server + 1), verbatim)
    } else {
        0
    }
}

/// `s` begins with `\\?\`.
pub open spec fn starts_verbatim(s: Seq<char>) -> bool {
    s.len() >= 4 && s[0] == '\\' && s[1] == '\\' && s[2] == '?' && s[3] == '\\'
}

/// `s` begins with `\\.\`.
pub open spec fn starts_device(s: Seq<char>) -> bool {
    s.len() >= 4 && s[0] == '\\' && s[1] == '\\' && s[2] == '.' && s[3] == '\\'
}

/// `s` begins with `\\`.
pub open spec fn starts_double(s: Seq<char>) -> bool {
    s.len() >= 2 && s[0] == '\\' && s[1] == '\\'
}

/// `s` begins with `UNC\`.
pub open spec fn starts_unc(s: Seq<char>) -> bool {
    s.len() >= 4 && s[0] == 'U' && s[1] == 'N' && s[2] == 'C' && s[3] == '\\'
}

/// `s` begins with a drive letter and a colon.
pub open spec fn starts_drive(s: Seq<char>) -> bool {
    s.len() >= 2 && is_drive_letter(s[0]) && s[1] == ':'
}

/// A drive exactly (`C:`, followed by nothing or a separator), as a verbatim
/// prefix takes it.
pub open spec fn exact_drive(s: Seq<char>) -> bool {
    starts_drive(s) && (s.len() == 2 || s[2] == '\\' || s[2] == '/')
}

/// The length of the path's prefix. On Windows: `\\?\UNC\server\share`,
/// `\\?\C:`, `\\?\name`, `\\.\name`, `\\server\share` (both names present)
/// or `C:`; elsewhere, and without one of these, none.
pub open spec fn prefix_len(style: PathStyle, s: Seq<char>) -> int {
    if style is Unix {
        0
    } else if starts_verbatim(s) {
        let r = s.skip(4);
        if starts_unc(r) {
            let a = r.skip(4);
            let share = share_len(a, true);
            8 + piece_len(a, true) + (if share > 0 {
                1 + share
            } else {
                0
            })
        } else if exact_drive(r) {
            6
        } else {
            4 + piece_len(r, true)
        }
    } else if starts_device(s) {
        4 + piece_len(s.skip(4), false)
    } else if starts_double(s) {
        let a = s.skip(2);
        if piece_len(a, false) > 0 && share_len(a, false) > 0 {
            3 + piece_len(a, false) + share_len(a, false)
        } else {
            0
        }
    } else if starts_drive(s) {
        2
    } else {
        0
    }
}

/// How the body of a path is split: verbatim after `\\?\` on Windows.
pub open spec fn body_syntax(style: PathStyle, s: Seq<char>) -> Syntax {
    if style is Unix {
        Syntax::Unix
    } else if starts_verbatim(s) {
        Syntax::Verbatim
    } else {
        Syntax::Windows
    }
}

/// The path after its prefix.
pub open spec fn path_body(style: PathStyle, s: Seq<char>) -> Seq<char> {
    s.skip(prefix_len(style, s))
}

/// The characters after the last separator.
pub open spec fn trailing_piece(x: Syntax, s: Seq<char>) -> Seq<char>
    decreases s.len(),
{
    if s.len() == 0 {
        Seq::<char>::empty()
    } else if closes(x, s) {
        Seq::<char>::empty()
    } else {
        trailing_piece(x, s.drop_last()).push(s.last())
    }
}

/// A piece that is a component: not empty, and not `.` unless verbatim.
pub open spec fn is_named_piece(x: Syntax, p: Seq<char>) -> bool {
    p.len() > 0 && (x is Verbatim || p != seq!['.'])
}

/// The last component among the pieces that a separator closes.
pub open spec fn last_closed_piece(x: Syntax, s: Seq<char>) -> Option<Seq<char>>
    decreases s.len(),
{
    if s.len() == 0 {
        None
    } else if closes(x, s) && is_named_piece(x, trailing_piece(x, s.drop_last())) {
        Some(trailing_piece(x, s.drop_last()))
    } else {
        last_closed_piece(x, s.drop_last())
    }
}

/// The last component of a path body.
pub open spec fn last_named_piece(x: Syntax, s: Seq<char>) -> Option<Seq<char>> {
    if is_named_piece(x, trailing_piece(x, s)) {
        Some(trailing_piece(x, s))
    } else {
        last_closed_piece(x, s)
    }
}

/// The final name of a path (`Path::file_name`): the last component after
/// the prefix, unless that is `..` (or a verbatim `.`).
pub open spec fn file_name(style: PathStyle, s: Seq<char>) -> Option<Seq<char>> {
    match last_named_piece(body_syntax(style, s), path_body(style, s)) {
        Some(p) => if p == seq!['.', '.'] || p == seq!['.'] {
            None
        } else {
            Some(p)
        },
        None => None,
    }
}

/// The characters after the last `.` of a name.
pub open spec fn after_last_dot(s: Seq<char>) -> Seq<char>
    decreases s.len(),
{
    if s.len() == 0 {
        Seq::<char>::empty()
    } else if s.last() == '.' {
        Seq::<char>::empty()
    } else {
        after_last_dot(s.drop_last()).push(s.last())
    }
}

/// The stem of a file name (`Path::file_stem`): the name without its last
/// extension. A name without a dot, or whose only dot leads it, is its own stem.
pub open spec fn stem_of(name: Seq<char>) -> Seq<char> {
    let ext = after_last_dot(name);
    if ext.len() == name.len() {
        name
    } else if name.len() - ext.len() - 1 == 0 {
        name
    } else {
        name.take(name.len() - ext.len() - 1)
    }
}

/// The extension of a file name (`Path::extension`): what follows its last
/// dot, unless it has no dot or its only dot leads it.
pub open spec fn extension_of(name: Seq<char>) -> Option<Seq<char>> {
    let ext = after_last_dot(name);
    if ext.len() == name.len() || name.len() - ext.len() - 1 == 0 {
        None
    } else {
        Some(ext)
    }
}

/// Where a macOS application bundle `Foo.app` keeps its executable:
/// `Foo.app/Contents/MacOS/Foo`. Nothing for a path that is not a bundle.
pub open spec fn bundle_binary_path(style: PathStyle, path: Seq<char>) -> Option<Seq<char>> {
    match file_name(style, path) {
        Some(n) => if extension_of(n) == Some("app"@) {
            Some(join(style, join(style, path, "Contents/MacOS"@), stem_of(n)))
        } else {
            None
        },
        None => None,
    }
}

/// The body without what names nothing at its end: trailing separators, and
/// (unless verbatim) `.` pieces that follow a separator.
pub open spec fn trim_tail(x: Syntax, s: Seq<char>) -> Seq<char>
    decreases s.len(),
{
    if closes(x, s) {
        trim_tail(x, s.drop_last())
    } else if !(x is Verbatim) && s.len() >= 2 && s.last() == '.' && is_sep(x, s[s.len() - 2]) {
        trim_tail(x, s.drop_last())
    } else {
        s
    }
}

/// The directory part of a path body: none when nothing but a root (or
/// nothing) is left; the empty path when a single piece is left; the root for
/// a piece right under it; otherwise everything before the last piece, without
/// what names nothing at its end.
pub open spec fn body_dir(x: Syntax, b: Seq<char>) -> Option<Seq<char>> {
    let t = trim_tail(x, b);
    if t.len() == 0 {
        None
    } else {
        let head = t.take(t.len() - trailing_piece(x, t).len());
        if head.len() == 0 {
            Some(Seq::<char>::empty())
        } else if trim_tail(x, head).len() == 0 {
            Some(seq![head[0]])
        } else {
            Some(trim_tail(x, head))
        }
    }
}

/// The directory part of a path (`Path::parent`): the prefix followed by the
/// directory part of the body.
pub open spec fn dir_part(style: PathStyle, s: Seq<char>) -> Option<Seq<char>> {
    match body_dir(body_syntax(style, s), path_body(style, s)) {
        Some(d) => Some(s.take(prefix_len(style, s)) + d),
        None => None,
    }
}

/// A name that begins at a root (a separator right at its start).
pub open spec fn has_root(style: PathStyle, name: Seq<char>) -> bool {
    name.len() > 0 && is_sep_byte(style, name[0])
}

/// The pieces of a body that are components, among those a separator closes.
pub open spec fn closed_named(x: Syntax, s: Seq<char>) -> Seq<Seq<char>>
    decreases s.len(),
{
    if s.len() == 0 {
        Seq::<Seq<char>>::empty()
    } else if closes(x, s) && is_named_piece(x, trailing_piece(x, s.drop_last())) {
        closed_named(x, s.drop_last()).push(trailing_piece(x, s.drop_last()))
    } else {
        closed_named(x, s.drop_last())
    }
}

/// The pieces of a body that are components, in order.
pub open spec fn named_pieces(x: Syntax, s: Seq<char>) -> Seq<Seq<char>> {
    if is_named_piece(x, trailing_piece(x, s)) {
        closed_named(x, s).push(trailing_piece(x, s))
    } else {
        closed_named(x, s)
    }
}

/// A component that is a name (neither `.` nor `..`).
pub open spec fn is_normal(p: Seq<char>) -> bool {
    p != seq!['.'] && p != seq!['.', '.']
}

/// One component of a name added to components already there: `..` takes
/// back a preceding name (or is dropped), anything else is appended.
pub open spec fn add_component(out: Seq<Seq<char>>, q: Seq<char>) -> Seq<Seq<char>> {
    if q == seq!['.', '.'] {
        if out.len() > 0 && is_normal(out.last()) {
            out.drop_last()
        } else {
            out
        }
    } else {
        out.push(q)
    }
}

/// Components added one after another.
pub open spec fn add_components(out: Seq<Seq<char>>, qs: Seq<Seq<char>>) -> Seq<Seq<char>>
    decreases qs.len(),
{
    if qs.len() == 0 {
        out
    } else {
        add_component(add_components(out, qs.drop_last()), qs.last())
    }
}

/// Each component preceded by `\`.
pub open spec fn backslash_joined(ps: Seq<Seq<char>>) -> Seq<char>
    decreases ps.len(),
{
    if ps.len() == 0 {
        Seq::<char>::empty()
    } else {
        backslash_joined(ps.drop_last()) + seq!['\\'] + ps.last()
    }
}

/// A name joined onto a directory with a verbatim prefix: the directory is
/// rebuilt from its components (prefix, root, pieces), the name's components
/// follow (a root in the name keeps only the prefix; `.` pieces are dropped;
/// `..` takes back a preceding name), and `\` separates them.
pub open spec fn verbatim_join(style: PathStyle, base: Seq<char>, name: Seq<char>) -> Seq<char> {
    let pl = prefix_len(style, base);
    let b = base.skip(pl);
    let name_root = has_root(style, name);
    let root = name_root || (b.len() > 0 && (b[0] == '\\' || b[0] == '/'));
    let start = if name_root {
        Seq::<Seq<char>>::empty()
    } else {
        named_pieces(Syntax::Verbatim, b)
    };
    let out = add_components(start, named_pieces(Syntax::Windows, name));
    base.take(pl) + (if root && out.len() == 0 {
        seq!['\\']
    } else {
        backslash_joined(out)
    })
}

/// A name joined onto a directory (`Path::join`). A name with a prefix, or
/// (outside Windows) one that begins at the root, replaces the directory; a
/// non-empty name joined onto a verbatim directory is rebuilt component by
/// component; on Windows a name that begins at the root keeps only the
/// directory's prefix. Otherwise the style's separator goes between them
/// unless the directory is empty, already ends in a separator, or is a bare
/// drive (`C:`).
pub open spec fn join(style: PathStyle, base: Seq<char>, name: Seq<char>) -> Seq<char> {
    if prefix_len(style, name) > 0 || (style is Unix && has_root(style, name)) {
        name
    } else if body_syntax(style, base) is Verbatim && name.len() > 0 {
        verbatim_join(style, base, name)
    } else if has_root(style, name) {
        base.take(prefix_len(style, base)) + name
    } else if base.len() == 0 {
        name
    } else if is_sep_byte(style, base.last()) {
        base + name
    } else if base.len() == 2 && prefix_len(style, base) == 2 {
        base + name
    } else {
        base.push(sep_char(style)) + name
    }
}

// ───────────── lemmas tying the scans to the definitions ─────────────

proof fn lemma_piece_len_at(s: Seq<char>, verbatim: bool, k: int)
    requires
        0 <= k <= s.len(),
        forall|i: int| 0 <= i < k ==> !prefix_sep(verbatim, #[trigger] s[i]),
        k == s.len() || prefix_sep(verbatim, s[k]),
    ensures
        piece_len(s, verbatim) == k,
    decreases k,
{
    if k > 0 {
        let t = s.drop_first();
        assert forall|i: int| 0 <= i < k - 1 implies !prefix_sep(verbatim, #[trigger] t[i]) by {
            assert(t[i] == s[i + 1]);
            assert(!prefix_sep(verbatim, s[i + 1]));
        }
        if k < s.len() {
            assert(t[k - 1] == s[k]);
        }
        assert(!prefix_sep(verbatim, s[0]));
        lemma_piece_len_at(t, verbatim, k - 1);
    }
}

proof fn lemma_piece_len_le(s: Seq<char>, verbatim: bool)
    ensures
        0 <= piece_len(s, verbatim) <= s.len(),
    decreases s.len(),
{
    if s.len() > 0 {
        lemma_piece_len_le(s.drop_first(), verbatim);
    }
}

/// A prefix never runs past the end of its path.
pub proof fn lemma_prefix_len_bound(style: PathStyle, s: Seq<char>)
    ensures
        0 <= prefix_len(style, s) <= s.len(),
{
    if style is Windows {
        if starts_verbatim(s) {
            let r = s.skip(4);
            lemma_piece_len_le(r, true);
            if starts_unc(r) {
                let a = r.skip(4);
                lemma_piece_len_le(a, true);
                let server = piece_len(a, true);
                if server < a.len() {
                    lemma_piece_len_le(a.skip(server + 1), true);
                }
            }
        } else if starts_device(s) {
            lemma_piece_len_le(s.skip(4), false);
        } else if starts_double(s) {
            let a = s.skip(2);
            lemma_piece_len_le(a, false);
            let server = piece_len(a, false);
            if server < a.len() {
                lemma_piece_len_le(a.skip(server + 1), false);
            }
        }
    }
}

proof fn lemma_body_keeps_ascii(style: PathStyle, s: Seq<char>)
    requires
        is_ascii_text(s),
    ensures
        is_ascii_text(path_body(style, s)),
{
    lemma_prefix_len_bound(style, s);
    let b = path_body(style, s);
    assert forall|i: int| 0 <= i < b.len() implies is_ascii_char(#[trigger] b[i]) by {
        assert(b[i] == s[i + prefix_len(style, s)]);
    }
}

proof fn lemma_trailing_piece_keeps_ascii(x: Syntax, s: Seq<char>)
    requires
        is_ascii_text(s),
    ensures
        is_ascii_text(trailing_piece(x, s)),
    decreases s.len(),
{
    if s.len() > 0 && !closes(x, s) {
        let t = s.drop_last();
        assert forall|i: int| 0 <= i < t.len() implies is_ascii_char(#[trigger] t[i]) by {
            assert(t[i] == s[i]);
        }
        lemma_trailing_piece_keeps_ascii(x, t);
        let p = trailing_piece(x, t);
        assert forall|i: int| 0 <= i < p.push(s.last()).len() implies is_ascii_char(
            #[trigger] p.push(s.last())[i],
        ) by {
            if i < p.len() {
                assert(p.push(s.last())[i] == p[i]);
            }
        }
    }
}

proof fn lemma_closed_piece_keeps_ascii(x: Syntax, s: Seq<char>)
    requires
        is_ascii_text(s),
    ensures
        last_closed_piece(x, s) matches Some(p) ==> is_ascii_text(p),
    decreases s.len(),
{
    if s.len() > 0 {
        let t = s.drop_last();
        assert forall|i: int| 0 <= i < t.len() implies is_ascii_char(#[trigger] t[i]) by {
            assert(t[i] == s[i]);
        }
        lemma_trailing_piece_keeps_ascii(x, t);
        lemma_closed_piece_keeps_ascii(x, t);
    }
}

/// The stem of the file name of an ASCII path is ASCII.
pub proof fn lemma_file_stem_keeps_ascii(style: PathStyle, s: Seq<char>)
    requires
        is_ascii_text(s),
    ensures
        file_name(style, s) matches Some(n) ==> is_ascii_text(stem_of(n)),
{
    let x = body_syntax(style, s);
    let b = path_body(style, s);
    lemma_body_keeps_ascii(style, s);
    lemma_trailing_piece_keeps_ascii(x, b);
    lemma_closed_piece_keeps_ascii(x, b);
    if let Some(n) = file_name(style, s) {
        assert(is_ascii_text(n));
        lemma_after_last_dot_len(n);
        let st = stem_of(n);
        assert(st.len() <= n.len());
        assert forall|i: int| 0 <= i < st.len() implies is_ascii_char(#[trigger] st[i]) by {
            assert(st[i] == n[i]);
        }
    }
}

proof fn lemma_trailing_piece_at(x: Syntax, s: Seq<char>, k: int)
    requires
        0 <= k <= s.len(),
        forall|i: int| k <= i < s.len() ==> !sep_at(x, s, i),
        k == 0 || sep_at(x, s, k - 1),
    ensures
        trailing_piece(x, s) == s.subrange(k, s.len() as int),
    decreases s.len() - k,
{
    if k == s.len() {
        if s.len() > 0 {
            assert(closes(x, s));
        }
        assert(s.subrange(k, s.len() as int) =~= Seq::<char>::empty());
    } else {
        let t = s.drop_last();
        assert(!sep_at(x, s, s.len() - 1));
        assert forall|i: int| k <= i < t.len() implies !sep_at(x, t, i) by {
            assert(t[i] == s[i]);
            assert(!sep_at(x, s, i));
        }
        if k > 0 {
            assert(t[k - 1] == s[k - 1]);
        }
        lemma_trailing_piece_at(x, t, k);
        assert(t.subrange(k, t.len() as int).push(s.last()) =~= s.subrange(k, s.len() as int));
    }
}

proof fn lemma_after_last_dot_at(s: Seq<char>, k: int)
    requires
        0 <= k <= s.len(),
        forall|i: int| k <= i < s.len() ==> s[i] != '.',
        k == 0 || s[k - 1] == '.',
    ensures
        after_last_dot(s) == s.subrange(k, s.len() as int),
    decreases s.len() - k,
{
    if k == s.len() {
        assert(s.subrange(k, s.len() as int) =~= Seq::<char>::empty());
    } else {
        let t = s.drop_last();
        assert forall|i: int| k <= i < t.len() implies t[i] != '.' by {
            assert(t[i] == s[i]);
        }
        if k > 0 {
            assert(t[k - 1] == s[k - 1]);
        }
        lemma_after_last_dot_at(t, k);
        assert(t.subrange(k, t.len() as int).push(s.last()) =~= s.subrange(k, s.len() as int));
    }
}

/// A name has a dot-free tail no longer than itself, so a non-empty name has
/// a non-empty stem.
pub(crate) proof fn lemma_after_last_dot_len(name: Seq<char>)
    ensures
        after_last_dot(name).len() <= name.len(),
        name.len() > 0 ==> stem_of(name).len() > 0,
    decreases name.len(),
{
    if name.len() > 0 {
        lemma_after_last_dot_len(name.drop_last());
    }
}

proof fn lemma_closed_piece_is_named(x: Syntax, s: Seq<char>)
    ensures
        last_closed_piece(x, s) matches Some(p) ==> is_named_piece(x, p),
    decreases s.len(),
{
    if s.len() > 0 {
        lemma_closed_piece_is_named(x, s.drop_last());
    }
}

/// A file name is never empty.
pub(crate) proof fn lemma_file_name_is_not_empty(style: PathStyle, s: Seq<char>)
    ensures
        file_name(style, s) matches Some(n) ==> n.len() > 0,
{
    lemma_closed_piece_is_named(body_syntax(style, s), path_body(style, s));
}

// ───────────── executable counterparts ─────────────

fn is_named(x: Syntax, p: &Vec<char>) -> (r: bool)
    ensures
        r == is_named_piece(x, p@),
{
    if p.len() == 0 {
        return false;
    }
    if x != Syntax::Verbatim && p.len() == 1 && p[0] == '.' {
        assert(p@ =~= seq!['.']);
        return false;
    }
    assert(p@.len() != 1 ==> p@ != seq!['.']);
    true
}

fn drive_letter(c: char) -> (r: bool)
    ensures
        r == is_drive_letter(c),
{
    let u = c as u32;
    (65 <= u && u <= 90) || (97 <= u && u <= 122)
}

/// Whether the character at `i` of a body separates pieces.
fn sep_in(x: Syntax, c: char, i: usize) -> (r: bool)
    ensures
        r == (is_sep(x, c) || (x is Verbatim && i == 0 && c == '/')),
{
    match x {
        Syntax::Unix => c == '/',
        Syntax::Windows => c == '/' || c == '\\',
        Syntax::Verbatim => c == '\\' || (i == 0 && c == '/'),
    }
}

fn sep_byte(style: PathStyle, c: char) -> (r: bool)
    ensures
        r == is_sep_byte(style, c),
{
    c == '/' || (style == PathStyle::Windows && c == '\\')
}

/// Where the piece that starts at `i` ends: at the next prefix separator, or
/// at the end.
fn piece_end(v: &Vec<char>, i: usize, verbatim: bool) -> (j: usize)
    requires
        i <= v@.len(),
    ensures
        i <= j <= v@.len(),
        j - i == piece_len(v@.skip(i as int), verbatim),
{
    let mut j = i;
    while j < v.len() && !(v[j] == '\\' || (!verbatim && v[j] == '/'))
        invariant
            i <= j <= v@.len(),
            forall|k: int| i <= k < j ==> !prefix_sep(verbatim, #[trigger] v@[k]),
        decreases v@.len() - j,
    {
        j += 1;
    }
    proof {
        let s = v@.skip(i as int);
        assert forall|k: int| 0 <= k < j - i implies !prefix_sep(verbatim, #[trigger] s[k]) by {
            assert(s[k] == v@[k + i]);
            assert(!prefix_sep(verbatim, v@[k + i]));
        }
        if j < v@.len() {
            assert(s[j - i] == v@[j as int]);
        }
        lemma_piece_len_at(s, verbatim, j - i);
    }
    j
}

/// The length of the path's prefix.
fn prefix_of(style: PathStyle, v: &Vec<char>) -> (p: usize)
    ensures
        p == prefix_len(style, v@),
        p <= v@.len(),
{
    proof {
        lemma_prefix_len_bound(style, v@);
    }
    if style == PathStyle::Unix {
        return 0;
    }
    let n = v.len();
    if n >= 4 && v[0] == '\\' && v[1] == '\\' && v[2] == '?' && v[3] == '\\' {
        let ghost r = v@.skip(4);
        assert(starts_verbatim(v@));
        if n >= 8 && v[4] == 'U' && v[5] == 'N' && v[6] == 'C' && v[7] == '\\' {
            let ghost a = r.skip(4);
            assert(a =~= v@.skip(8));
            assert(r[0] == v@[4] && r[1] == v@[5] && r[2] == v@[6] && r[3] == v@[7]);
            assert(starts_unc(r));
            let se = piece_end(v, 8, true);
            if se < n {
                let sh = piece_end(v, se + 1, true);
                assert(a.skip(se - 8 + 1) =~= v@.skip(se + 1));
                if sh > se + 1 {
                    return sh;
                } else {
                    return se;
                }
            } else {
                return se;
            }
        }
        proof {
            if r.len() >= 4 {
                assert(r[0] == v@[4] && r[1] == v@[5] && r[2] == v@[6] && r[3] == v@[7]);
            }
            assert(!starts_unc(r));
        }
        if n >= 6 && drive_letter(v[4]) && v[5] == ':' && (n == 6 || v[6] == '\\' || v[6] == '/') {
            assert(r[0] == v@[4] && r[1] == v@[5]);
            if n > 6 {
                assert(r[2] == v@[6]);
            }
            assert(exact_drive(r));
            return 6;
        }
        proof {
            if r.len() >= 2 {
                assert(r[0] == v@[4] && r[1] == v@[5]);
            }
            if r.len() >= 3 {
                assert(r[2] == v@[6]);
            }
            assert(!exact_drive(r));
        }
        return piece_end(v, 4, true);
    }
    assert(!starts_verbatim(v@));
    if n >= 4 && v[0] == '\\' && v[1] == '\\' && v[2] == '.' && v[3] == '\\' {
        return piece_end(v, 4, false);
    }
    assert(!starts_device(v@));
    if n >= 2 && v[0] == '\\' && v[1] == '\\' {
        let ghost a = v@.skip(2);
        let se = piece_end(v, 2, false);
        if se > 2 && se < n {
            let sh = piece_end(v, se + 1, false);
            assert(a.skip(se - 2 + 1) =~= v@.skip(se + 1));
            if sh > se + 1 {
                return sh;
            }
        }
        return 0;
    }
    assert(!starts_double(v@));
    if n >= 2 && drive_letter(v[0]) && v[1] == ':' {
        2
    } else {
        0
    }
}

/// How the body of the path is split.
fn syntax_of(style: PathStyle, v: &Vec<char>) -> (x: Syntax)
    ensures
        x == body_syntax(style, v@),
{
    if style == PathStyle::Unix {
        Syntax::Unix
    } else if v.len() >= 4 && v[0] == '\\' && v[1] == '\\' && v[2] == '?' && v[3] == '\\' {
        Syntax::Verbatim
    } else {
        Syntax::Windows
    }
}

fn tail_from(v: &Vec<char>, p: usize) -> (b: Vec<char>)
    requires
        p <= v@.len(),
    ensures
        b@ == v@.skip(p as int),
{
    let mut b: Vec<char> = Vec::new();
    let mut i: usize = p;
    while i < v.len()
        invariant
            p <= i <= v@.len(),
            b@ == v@.subrange(p as int, i as int),
        decreases v@.len() - i,
    {
        b.push(v[i]);
        i += 1;
        assert(b@ =~= v@.subrange(p as int, i as int));
    }
    assert(b@ =~= v@.skip(p as int));
    b
}

/// The final name of a path, if it has one.
pub fn file_name_of(path: &str, style: PathStyle) -> (r: Option<String>)
    ensures
        match r {
            Some(n) => file_name(style, path@) == Some(n@),
            None => file_name(style, path@) is None,
        },
{
    let whole = chars_of(path);
    let x = syntax_of(style, &whole);
    let p = prefix_of(style, &whole);
    let v = tail_from(&whole, p);
    let n = v.len();
    let mut cur: Vec<char> = Vec::new();
    let mut done: Option<Vec<char>> = None;
    let mut i: usize = 0;
    while i < n
        invariant
            n == v@.len(),
            v@ == path_body(style, path@),
            x == body_syntax(style, path@),
            i <= n,
            cur@ == trailing_piece(x, v@.take(i as int)),
            match done {
                Some(d) => last_closed_piece(x, v@.take(i as int)) == Some(d@),
                None => last_closed_piece(x, v@.take(i as int)) is None,
            },
        decreases n - i,
    {
        let c = v[i];
        let ghost pre = v@.take(i as int);
        let ghost nxt = v@.take(i + 1);
        assert(nxt.drop_last() =~= pre);
        assert(nxt.last() == c);
        assert(nxt[i as int] == c);
        if sep_in(x, c, i) {
            assert(closes(x, nxt));
            if is_named(x, &cur) {
                done = Some(cur);
            }
            cur = Vec::new();
            assert(cur@ =~= trailing_piece(x, nxt));
        } else {
            assert(!closes(x, nxt));
            cur.push(c);
        }
        i += 1;
    }
    assert(v@.take(n as int) =~= v@);
    let last = if is_named(x, &cur) {
        Some(cur)
    } else {
        done
    };
    match last {
        Some(q) => {
            if q.len() == 2 && q[0] == '.' && q[1] == '.' {
                assert(q@ =~= seq!['.', '.']);
                None
            } else if q.len() == 1 && q[0] == '.' {
                assert(q@ =~= seq!['.']);
                None
            } else {
                assert(q@.len() != 2 ==> q@ != seq!['.', '.']);
                assert(q@.len() != 1 ==> q@ != seq!['.']);
                Some(string_of(q.as_slice()))
            }
        },
        None => None,
    }
}

/// The stem of a file name.
pub fn stem_chars(name: &Vec<char>) -> (r: Vec<char>)
    ensures
        r@ == stem_of(name@),
{
    let n = name.len();
    let mut k: usize = n;
    while k > 0 && name[k - 1] != '.'
        invariant
            k <= n,
            n == name@.len(),
            forall|i: int| k <= i < n ==> name@[i] != '.',
        decreases k,
    {
        k -= 1;
    }
    proof {
        lemma_after_last_dot_at(name@, k as int);
    }
    if k == 0 || k == 1 {
        return name.clone();
    }
    let mut r: Vec<char> = Vec::new();
    let mut i: usize = 0;
    while i < k - 1
        invariant
            1 < k <= n,
            n == name@.len(),
            i <= k - 1,
            r@ == name@.take(i as int),
        decreases k - 1 - i,
    {
        r.push(name[i]);
        i += 1;
        assert(r@ =~= name@.take(i as int));
    }
    r
}

/// The end of what names something in `v`'s first `end` characters.
fn trim_tail_end(x: Syntax, v: &Vec<char>, end: usize) -> (j: usize)
    requires
        end <= v@.len(),
    ensures
        j <= end,
        trim_tail(x, v@.take(end as int)) == v@.take(j as int),
{
    let mut j = end;
    loop
        invariant
            j <= end <= v@.len(),
            trim_tail(x, v@.take(end as int)) == trim_tail(x, v@.take(j as int)),
        ensures
            j <= end,
            trim_tail(x, v@.take(end as int)) == v@.take(j as int),
        decreases j,
    {
        let ghost t = v@.take(j as int);
        if j > 0 && sep_in(x, v[j - 1], j - 1) {
            assert(t[j - 1] == v@[j - 1]);
            assert(closes(x, t));
            assert(t.drop_last() =~= v@.take(j - 1));
            j -= 1;
        } else if x != Syntax::Verbatim && j >= 2 && v[j - 1] == '.' && sep_in(x, v[j - 2], j - 2) {
            assert(t[j - 1] == v@[j - 1]);
            assert(!closes(x, t));
            assert(t.drop_last() =~= v@.take(j - 1));
            assert(t[t.len() - 2] == v@[j - 2]);
            j -= 1;
        } else {
            if j >= 1 {
                assert(t[j - 1] == v@[j - 1]);
            }
            if j >= 2 {
                assert(t[t.len() - 2] == v@[j - 2]);
            }
            assert(trim_tail(x, t) == t);
            break;
        }
    }
    j
}

fn body_dir_of(x: Syntax, v: &Vec<char>) -> (r: Option<Vec<char>>)
    ensures
        match r {
            Some(d) => body_dir(x, v@) == Some(d@),
            None => body_dir(x, v@) is None,
        },
{
    let n = v.len();
    let e = trim_tail_end(x, v, n);
    assert(v@.take(n as int) =~= v@);
    let ghost t = v@.take(e as int);
    if e == 0 {
        return None;
    }
    let mut k: usize = e;
    while k > 0 && !sep_in(x, v[k - 1], k - 1)
        invariant
            k <= e <= n,
            n == v@.len(),
            forall|i: int| k <= i < e ==> !sep_at(x, v@, i),
        decreases k,
    {
        k -= 1;
    }
    proof {
        assert forall|i: int| k <= i < t.len() implies !sep_at(x, t, i) by {
            assert(t[i] == v@[i]);
            assert(!sep_at(x, v@, i));
        }
        if k > 0 {
            assert(t[k - 1] == v@[k - 1]);
        }
        lemma_trailing_piece_at(x, t, k as int);
        assert(t.take(t.len() - trailing_piece(x, t).len()) =~= v@.take(k as int));
    }
    if k == 0 {
        return Some(Vec::new());
    }
    let h = trim_tail_end(x, v, k);
    if h == 0 {
        let mut r: Vec<char> = Vec::new();
        r.push(v[0]);
        assert(r@ =~= seq![v@.take(k as int)[0]]);
        return Some(r);
    }
    let mut r: Vec<char> = Vec::new();
    let mut i: usize = 0;
    while i < h
        invariant
            i <= h <= v@.len(),
            r@ == v@.take(i as int),
        decreases h - i,
    {
        r.push(v[i]);
        i += 1;
        assert(r@ =~= v@.take(i as int));
    }
    Some(r)
}

/// The directory part of a path, if it has one.
pub fn dir_part_of(path: &str, style: PathStyle) -> (r: Option<String>)
    ensures
        match r {
            Some(d) => dir_part(style, path@) == Some(d@),
            None => dir_part(style, path@) is None,
        },
{
    let whole = chars_of(path);
    let x = syntax_of(style, &whole);
    let p = prefix_of(style, &whole);
    let v = tail_from(&whole, p);
    match body_dir_of(x, &v) {
        Some(d) => {
            let mut r = string_of(&whole.as_slice()[0..p]);
            let ds = string_of(d.as_slice());
            r.append(ds.as_str());
            assert(whole@.take(p as int) =~= whole@.subrange(0, p as int));
            Some(r)
        },
        None => None,
    }
}

/// The characters of each piece.
pub open spec fn piece_views(v: Seq<Vec<char>>) -> Seq<Seq<char>> {
    v.map_values(|p: Vec<char>| p@)
}

fn named_pieces_of(x: Syntax, v: &Vec<char>) -> (r: Vec<Vec<char>>)
    ensures
        piece_views(r@) == named_pieces(x, v@),
{
    let n = v.len();
    let mut cur: Vec<char> = Vec::new();
    let mut done: Vec<Vec<char>> = Vec::new();
    let mut i: usize = 0;
    assert(piece_views(done@) =~= closed_named(x, v@.take(0)));
    while i < n
        invariant
            n == v@.len(),
            i <= n,
            cur@ == trailing_piece(x, v@.take(i as int)),
            piece_views(done@) == closed_named(x, v@.take(i as int)),
        decreases n - i,
    {
        let c = v[i];
        let ghost pre = v@.take(i as int);
        let ghost nxt = v@.take(i + 1);
        assert(nxt.drop_last() =~= pre);
        assert(nxt.last() == c);
        assert(nxt[i as int] == c);
        if sep_in(x, c, i) {
            assert(closes(x, nxt));
            if is_named(x, &cur) {
                let ghost before = done@;
                done.push(cur);
                assert(piece_views(done@) =~= piece_views(before).push(trailing_piece(x, pre)));
            }
            cur = Vec::new();
            assert(cur@ =~= trailing_piece(x, nxt));
        } else {
            assert(!closes(x, nxt));
            cur.push(c);
        }
        i += 1;
    }
    assert(v@.take(n as int) =~= v@);
    if is_named(x, &cur) {
        let ghost before = done@;
        done.push(cur);
        assert(piece_views(done@) =~= piece_views(before).push(trailing_piece(x, v@)));
    }
    done
}

fn normal_piece(p: &Vec<char>) -> (r: bool)
    ensures
        r == is_normal(p@),
{
    if p.len() == 1 && p[0] == '.' {
        assert(p@ =~= seq!['.']);
        return false;
    }
    if p.len() == 2 && p[0] == '.' && p[1] == '.' {
        assert(p@ =~= seq!['.', '.']);
        return false;
    }
    assert(p@.len() != 1 ==> p@ != seq!['.']);
    assert(p@.len() != 2 ==> p@ != seq!['.', '.']);
    true
}

fn add_all(start: Vec<Vec<char>>, qs: Vec<Vec<char>>) -> (r: Vec<Vec<char>>)
    ensures
        piece_views(r@) == add_components(piece_views(start@), piece_views(qs@)),
{
    let mut out = start;
    let ghost s0 = piece_views(out@);
    let n = qs.len();
    let mut i: usize = 0;
    assert(piece_views(qs@).take(0) =~= Seq::<Seq<char>>::empty());
    while i < n
        invariant
            n == qs@.len(),
            i <= n,
            piece_views(out@) == add_components(s0, piece_views(qs@).take(i as int)),
        decreases n - i,
    {
        let ghost before = out@;
        let q = &qs[i];
        let ghost qv = piece_views(qs@);
        assert(qv.take(i + 1).drop_last() =~= qv.take(i as int));
        assert(qv.take(i + 1).last() == q@);
        if q.len() == 2 && q[0] == '.' && q[1] == '.' {
            assert(q@ =~= seq!['.', '.']);
            if out.len() > 0 && normal_piece(&out[out.len() - 1]) {
                out.pop();
                assert(piece_views(out@) =~= piece_views(before).drop_last());
            }
        } else {
            assert(q@.len() != 2 ==> q@ != seq!['.', '.']);
            out.push(q.clone());
            assert(piece_views(out@) =~= piece_views(before).push(q@));
        }
        i += 1;
    }
    assert(piece_views(qs@).take(n as int) =~= piece_views(qs@));
    out
}

fn push_backslash_joined(r: &mut String, ps: &Vec<Vec<char>>)
    ensures
        final(r)@ == old(r)@ + backslash_joined(piece_views(ps@)),
{
    let n = ps.len();
    let mut i: usize = 0;
    assert(piece_views(ps@).take(0) =~= Seq::<Seq<char>>::empty());
    while i < n
        invariant
            n == ps@.len(),
            i <= n,
            r@ == old(r)@ + backslash_joined(piece_views(ps@).take(i as int)),
        decreases n - i,
    {
        let ghost pv = piece_views(ps@);
        assert(pv.take(i + 1).drop_last() =~= pv.take(i as int));
        assert(pv.take(i + 1).last() == ps@[i as int]@);
        push_char(r, '\\');
        crate::text::push_chars(r, ps[i].as_slice());
        i += 1;
    }
    assert(piece_views(ps@).take(n as int) =~= piece_views(ps@));
}

fn verbatim_joined(v: &Vec<char>, nv: &Vec<char>, style: PathStyle) -> (r: String)
    requires
        style is Windows,
    ensures
        r@ == verbatim_join(style, v@, nv@),
{
    let pl = prefix_of(style, v);
    let b = tail_from(v, pl);
    let name_root = nv.len() > 0 && sep_byte(style, nv[0]);
    let root = name_root || (b.len() > 0 && (b[0] == '\\' || b[0] == '/'));
    let start = if name_root {
        Vec::new()
    } else {
        named_pieces_of(Syntax::Verbatim, &b)
    };
    proof {
        if name_root {
            assert(piece_views(start@) =~= Seq::<Seq<char>>::empty());
        }
    }
    let qs = named_pieces_of(Syntax::Windows, nv);
    let out = add_all(start, qs);
    let mut r = string_of(&v.as_slice()[0..pl]);
    assert(v@.take(pl as int) =~= v@.subrange(0, pl as int));
    if root && out.len() == 0 {
        push_char(&mut r, '\\');
    } else {
        push_backslash_joined(&mut r, &out);
    }
    r
}

/// Joins a name onto a directory.
pub fn joined(base: &str, name: &str, style: PathStyle) -> (r: String)
    ensures
        r@ == join(style, base@, name@),
{
    let nv = chars_of(name);
    let np = prefix_of(style, &nv);
    let rooted = nv.len() > 0 && sep_byte(style, nv[0]);
    if np > 0 || (style == PathStyle::Unix && rooted) {
        return String::from_str(name);
    }
    let v = chars_of(base);
    let n = v.len();
    if syntax_of(style, &v) == Syntax::Verbatim && nv.len() > 0 {
        return verbatim_joined(&v, &nv, style);
    }
    if rooted {
        let bp = prefix_of(style, &v);
        let mut r = string_of(&v.as_slice()[0..bp]);
        r.append(name);
        assert(v@.take(bp as int) =~= v@.subrange(0, bp as int));
        return r;
    }
    if n == 0 {
        return String::from_str(name);
    }
    let mut r = String::from_str(base);
    if !sep_byte(style, v[n - 1]) && !(n == 2 && prefix_of(style, &v) == 2) {
        if style == PathStyle::Windows {
            push_char(&mut r, '\\');
        } else {
            push_char(&mut r, '/');
        }
    }
    r.append(name);
    r
}

/// The executable inside an application bundle, when `path` names one; the
/// caller launches it directly when it exists, since opening the bundle would
/// not give the process id to monitor.
pub fn bundle_binary(path: &str, style: PathStyle) -> (r: Option<String>)
    ensures
        match r {
            Some(p) => bundle_binary_path(style, path@) == Some(p@),
            None => bundle_binary_path(style, path@) is None,
        },
{
    let name = match file_name_of(path, style) {
        Some(n) => n,
        None => return None,
    };
    let nv = chars_of(name.as_str());
    let n = nv.len();
    let mut k: usize = n;
    while k > 0 && nv[k - 1] != '.'
        invariant
            k <= n,
            n == nv@.len(),
            forall|i: int| k <= i < n ==> nv@[i] != '.',
        decreases k,
    {
        k -= 1;
    }
    proof {
        lemma_after_last_dot_at(nv@, k as int);
    }
    if k <= 1 {
        return None;
    }
    let is_app = n - k == 3 && nv[k] == 'a' && nv[k + 1] == 'p' && nv[k + 2] == 'p';
    proof {
        reveal_strlit("app");
        let ext = nv@.subrange(k as int, n as int);
        if n - k == 3 {
            assert(ext[0] == nv@[k as int] && ext[1] == nv@[k + 1] && ext[2] == nv@[k + 2]);
            if is_app {
                assert(ext =~= "app"@);
            }
        }
    }
    if !is_app {
        return None;
    }
    let stem = stem_chars(&nv);
    let stem_s = string_of(stem.as_slice());
    let inner = joined(path, "Contents/MacOS", style);
    Some(joined(inner.as_str(), stem_s.as_str(), style))
}

} // verus!
