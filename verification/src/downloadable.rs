//! Names and places of the files that a download and its unpacking produce.

use vstd::prelude::*;
use crate::sys::utils::{join_path, joined_path};

verus! {

/// The name of the downloaded archive of a binary's version.
pub open spec fn archive_file_name_text(binary: Seq<char>, version: Seq<char>) -> Seq<char> {
    binary + "-"@ + version + ".zip"@
}

/// The path that the components form when each is joined onto the ones before it.
pub open spec fn joined_components(components: Seq<Seq<char>>) -> Seq<char>
    decreases components.len(),
{
    if components.len() == 0 {
        seq![]
    } else {
        joined_path(joined_components(components.drop_last()), components.last())
    }
}

/// Where an archive entry is unpacked: its path without its first component,
/// under `root`; nowhere when nothing is left of the path.
pub open spec fn entry_destination_path(root: Seq<char>, components: Seq<Seq<char>>) -> Option<
    Seq<char>,
> {
    let inner = joined_components(components.skip(1));
    if components.len() == 0 || inner.len() == 0 {
        None
    } else {
        Some(joined_path(root, inner))
    }
}

/// The file that marks a completed unpacking in an installation directory.
pub open spec fn success_marker_text(dir: Seq<char>) -> Seq<char> {
    joined_path(dir, ".cft_success"@)
}

/// The name of the downloaded archive, such as `chrome-116.0.5845.96.zip`.
pub fn archive_file_name(type_to_download: &str, target_version: &str) -> (res: String)
    ensures
        res@ == archive_file_name_text(type_to_download@, target_version@),
{
    let mut res = String::from_str(type_to_download);
    res.append("-");
    res.append(target_version);
    res.append(".zip");
    res
}

/// Where the archive entry whose path has the components `components` is
/// unpacked under `root`: the archive's top directory is dropped, and an
/// entry of which nothing is left is skipped.
pub fn entry_destination(root: &str, components: &Vec<String>) -> (res: Option<String>)
    ensures
        match res {
            Some(path) => entry_destination_path(
                root@,
                components@.map_values(|c: String| c@),
            ) == Some(path@),
            None => entry_destination_path(root@, components@.map_values(|c: String| c@))
                == None::<Seq<char>>,
        },
{
    let ghost parts = components@.map_values(|c: String| c@);
    let n = components.len();
    if n == 0 {
        return None;
    }
    let mut inner = String::new();
    let mut i: usize = 1;
    assert(parts.skip(1).take(0) =~= Seq::<Seq<char>>::empty());
    while i < n
        invariant
            n == components@.len(),
            parts == components@.map_values(|c: String| c@),
            1 <= i <= n,
            inner@ == joined_components(parts.skip(1).take(i - 1)),
        decreases n - i,
    {
        inner = join_path(inner.as_str(), components[i].as_str());
        assert(parts.skip(1).take(i as int).drop_last() =~= parts.skip(1).take(i - 1));
        assert(parts.skip(1).take(i as int).last() == components@[i as int]@);
        i = i + 1;
    }
    assert(parts.skip(1).take(n - 1) =~= parts.skip(1));
    if inner.as_str().unicode_len() == 0 {
        None
    } else {
        Some(join_path(root, inner.as_str()))
    }
}

/// The file that marks a completed unpacking in the directory `dir`.
pub fn success_marker_path(dir: &str) -> (res: String)
    ensures
        res@ == success_marker_text(dir@),
{
    join_path(dir, ".cft_success")
}

/// Joining a non-empty path gives a non-empty path.
proof fn lemma_joined_nonempty(base: Seq<char>, part: Seq<char>)
    requires
        base.len() > 0 || part.len() > 0,
    ensures
        joined_path(base, part).len() > 0,
{
}

/// Joining is associative when the middle path is not empty: joining `c`
/// onto `b` and the result onto `a` is joining `b` onto `a` and `c` onto that.
pub proof fn lemma_joined_path_associative(a: Seq<char>, b: Seq<char>, c: Seq<char>)
    requires
        b.len() > 0,
    ensures
        joined_path(a, joined_path(b, c)) == joined_path(joined_path(a, b), c),
{
    let bc = joined_path(b, c);
    let ab = joined_path(a, b);
    if c.len() > 0 && c[0] == '/' {
    } else {
        assert(bc[0] == b[0]);
        if b[0] == '/' {
            assert(ab == b);
        } else {
            assert(ab.last() == b.last());
            if a.len() > 0 && a.last() != '/' {
                if b.last() != '/' {
                    assert(joined_path(a, bc) =~= joined_path(ab, c));
                } else {
                    assert(joined_path(a, bc) =~= joined_path(ab, c));
                }
            } else {
                if b.last() != '/' {
                    assert(joined_path(a, bc) =~= joined_path(ab, c));
                } else {
                    assert(joined_path(a, bc) =~= joined_path(ab, c));
                }
            }
        }
    }
}

/// An entry that is only the archive's top directory, or less, is skipped.
pub proof fn lemma_top_directory_skipped(root: Seq<char>, components: Seq<Seq<char>>)
    requires
        components.len() <= 1,
    ensures
        entry_destination_path(root, components) == None::<Seq<char>>,
{
    if components.len() == 1 {
        assert(components.skip(1) =~= Seq::<Seq<char>>::empty());
    }
}

/// An entry one level below the archive's top directory is unpacked at its
/// own name under the root.
pub proof fn lemma_first_level_destination(root: Seq<char>, top: Seq<char>, name: Seq<char>)
    requires
        name.len() > 0,
    ensures
        entry_destination_path(root, seq![top, name]) == Some(joined_path(root, name)),
{
    let components = seq![top, name];
    assert(components.skip(1) =~= seq![name]);
    assert(seq![name].drop_last() =~= Seq::<Seq<char>>::empty());
    assert(seq![name].last() == name);
    assert(joined_components(Seq::<Seq<char>>::empty()) == Seq::<char>::empty());
    assert(joined_components(seq![name]) == joined_path(Seq::<char>::empty(), name));
    assert(joined_path(Seq::<char>::empty(), name) =~= name);
}

/// One more component of an entry's path is one more component of where it
/// is unpacked: only the archive's top directory is dropped, at every depth.
pub proof fn lemma_deeper_destination(
    root: Seq<char>,
    components: Seq<Seq<char>>,
    next: Seq<char>,
)
    requires
        entry_destination_path(root, components) is Some,
    ensures
        entry_destination_path(root, components.push(next)) == Some(
            joined_path(entry_destination_path(root, components)->0, next),
        ),
{
    let inner = joined_components(components.skip(1));
    let longer = components.push(next);
    assert(longer.skip(1) =~= components.skip(1).push(next));
    assert(longer.skip(1).drop_last() =~= components.skip(1));
    assert(joined_components(longer.skip(1)) == joined_path(inner, next));
    lemma_joined_nonempty(inner, next);
    lemma_joined_path_associative(root, inner, next);
}

/// The completion marker lies directly inside the installation directory:
/// the directory, a separator, then `.cft_success`.
pub proof fn lemma_success_marker_inside(dir: Seq<char>)
    requires
        dir.len() > 0,
        dir.last() != '/',
    ensures
        success_marker_text(dir) == dir + seq!['/'] + seq!['.', 'c', 'f', 't', '_', 's', 'u', 'c', 'c', 'e', 's', 's'],
{
    reveal_strlit(".cft_success");
    assert(".cft_success"@ =~= seq!['.', 'c', 'f', 't', '_', 's', 'u', 'c', 'c', 'e', 's', 's']);
}

} // verus!
