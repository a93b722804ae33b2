//! What is known of a path's file name on every platform.
use crate::text;
use vstd::prelude::*;

verus! {

/// What stands behind the last `c`, or the whole text where there is none.
pub open spec fn behind_last(s: Seq<char>, c: char) -> Seq<char>
    decreases s.len(),
{
    if s.len() == 0 || s.last() == c {
        seq![]
    } else {
        behind_last(s.drop_last(), c).push(s.last())
    }
}

pub open spec fn is_separator(c: char) -> bool {
    c == '/' || c == '\\'
}

/// The path begins with two separators: to some platforms it then names a
/// server or a device.
pub open spec fn names_a_host(path: Seq<char>) -> bool {
    path.len() >= 2 && is_separator(path[0]) && is_separator(path[1])
}

/// The last component of a path whose components `/` separates, and `None`
/// where it has none. Separators at the end do not count, nor does a `.` behind
/// one. Where a platform could see another separator or a drive, the outer
/// `None` says that nothing is known.
pub open spec fn last_component(path: Seq<char>) -> Option<Option<Seq<char>>>
    decreases path.len(),
{
    let name = behind_last(path, '/');
    if path.len() == 0 {
        Some(None)
    } else if path.last() == '/' || (name == seq!['.'] && path.len() > 1) {
        last_component(path.drop_last())
    } else if name == seq!['.'] || name == seq!['.', '.'] {
        Some(None)
    } else if name.contains('\\') || name.contains(':') {
        None
    } else {
        Some(Some(name))
    }
}

/// The name of the file that a path leads to, as far as all platforms agree.
pub open spec fn known_name(path: Seq<char>) -> Option<Option<Seq<char>>> {
    if names_a_host(path) {
        None
    } else {
        last_component(path)
    }
}

/// The extension of a file name: what stands behind its last dot, where
/// something stands before that dot, else nothing.
pub open spec fn name_extension(name: Option<Seq<char>>) -> Seq<char> {
    match name {
        None => seq![],
        Some(n) => {
            let e = behind_last(n, '.');
            if e.len() + 1 < n.len() {
                e
            } else {
                seq![]
            }
        },
    }
}

/// A name that stands for itself: it has no separator of any platform, no
/// drive, and is neither empty nor a dot or two.
pub open spec fn is_bare_name(name: Seq<char>) -> bool {
    &&& name.len() > 0
    &&& name != seq!['.']
    &&& name != seq!['.', '.']
    &&& !name.contains('/')
    &&& !name.contains('\\')
    &&& !name.contains(':')
}

proof fn lemma_behind_last(front: Seq<char>, name: Seq<char>, c: char)
    requires
        !name.contains(c),
    ensures
        behind_last(name, c) == name,
        behind_last(front + seq![c] + name, c) == name,
    decreases name.len(),
{
    let s = front + seq![c] + name;
    if name.len() > 0 {
        let t = name.drop_last();
        assert(name.contains(name.last()));
        assert(!t.contains(c)) by {
            if t.contains(c) {
                let i = choose|i: int| 0 <= i < t.len() && t[i] == c;
                assert(name[i] == c);
            }
        }
        lemma_behind_last(front, t, c);
        assert(s.drop_last() =~= front + seq![c] + t);
        assert(t.push(name.last()) =~= name);
        assert(s.last() == name.last());
    } else {
        assert(s.last() == c);
        assert(name =~= seq![]);
    }
}

/// A bare name is the name of its own file, and behind any folder and a `/` of
/// that file in the folder, and separators at the end change nothing.
pub proof fn law_name_behind_the_folder(folder: Seq<char>, name: Seq<char>)
    requires
        is_bare_name(name),
    ensures
        known_name(name) == Some(Some(name)),
        !names_a_host(folder + seq!['/'] + name) ==> {
            &&& known_name(folder + seq!['/'] + name) == Some(Some(name))
            &&& known_name(folder + seq!['/'] + name + seq!['/']) == Some(Some(name))
        },
{
    lemma_behind_last(folder, name, '/');
    let path = folder + seq!['/'] + name;
    assert(name.contains(name.last()));
    assert(path.last() == name.last());
    assert(name.contains(name[0]));
    if name.len() > 1 {
        assert(name.contains(name[1]));
    }
    let longer = path + seq!['/'];
    assert(longer.drop_last() =~= path);
    assert(longer[0] == path[0] && longer[1] == path[1]);
}

/// The extension of a name that is a stem, a dot and an extension without dots
/// is that extension; a name without a dot, or with one at its start alone, has none.
pub proof fn law_extension_of_a_name(stem: Seq<char>, e: Seq<char>)
    requires
        !e.contains('.'),
    ensures
        stem.len() > 0 ==> name_extension(Some(stem + seq!['.'] + e)) == e,
        name_extension(Some(seq!['.'] + e)) == Seq::<char>::empty(),
        name_extension(Some(e)) == Seq::<char>::empty(),
{
    lemma_behind_last(stem, e, '.');
    lemma_behind_last(seq![], e, '.');
    assert(seq![] + seq!['.'] + e =~= seq!['.'] + e);
    assert(stem.len() > 0 && e.len() == 0 ==> e =~= seq![]);
}

/// Calls `Path::file_name`: the last component of a path, or nothing where the
/// path ends in `..` or has no components. What separates components depends on
/// the platform; only what holds on all of them is said.
#[verifier::external_body]
pub(crate) fn file_name(path: &str) -> (r: Option<String>)
    ensures
        known_name(path@) matches Some(n) ==> text::opt_view(r) == n,
{
    std::path::Path::new(path).file_name().map(|n| n.to_string_lossy().into_owned())
}

/// The last character is no separator of any platform, and there is one.
pub open spec fn ends_in_name(p: Seq<char>) -> bool {
    p.len() > 0 && !is_separator(p.last()) && p.last() != ':'
}

/// A text that can be an extension on every platform.
pub open spec fn is_extension(e: Seq<char>) -> bool {
    e.len() > 0 && !e.contains('.') && !e.contains('/') && !e.contains('\\') && !e.contains(':')
}

/// The path is a name, a dot and the extension, whatever separates components.
pub open spec fn has_extension(path: Seq<char>, e: Seq<char>) -> bool {
    &&& path.len() > e.len() + 1
    &&& path.skip(path.len() - e.len()) == e
    &&& path[path.len() - e.len() - 1] == '.'
    &&& ends_in_name(path.take(path.len() - e.len() - 1))
    &&& is_extension(e)
    &&& !names_a_host(path)
}

/// An extension, empty where there is none.
pub open spec fn or_empty(e: Option<Seq<char>>) -> Seq<char> {
    match e {
        Some(x) => x,
        None => seq![],
    }
}

/// What is known of the extension of a path on every platform.
pub open spec fn extension_fits(path: Seq<char>, e: Option<Seq<char>>) -> bool {
    &&& forall|x: Seq<char>| #[trigger] has_extension(path, x) ==> e == Some(x)
    &&& known_name(path) matches Some(n) ==> or_empty(e) == name_extension(n)
    &&& !path.contains('.') ==> e is None
}

/// Calls `Path::extension`: what stands behind the last dot of the last
/// component, where a name stands before that dot. What separates components
/// depends on the platform; only what holds on all of them is said. Whether a
/// name that ends in a dot has an empty extension or none is left open.
#[verifier::external_body]
pub(crate) fn extension(path: &str) -> (r: Option<String>)
    ensures
        extension_fits(path@, text::opt_view(r)),
{
    std::path::Path::new(path).extension().map(|e| e.to_string_lossy().into_owned())
}

} // verus!
