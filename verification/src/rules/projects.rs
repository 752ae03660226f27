//! Rule packs that a project keeps for itself.
use vstd::prelude::*;

use crate::config::{join_path, joined};
use crate::text::{chars, from_chars, reports, same_text, texts};

verus! {

/// The parts of a path between its slashes.
pub open spec fn parts(path: Seq<char>) -> Seq<Seq<char>>
    decreases path.len(),
{
    if path.len() == 0 {
        seq![Seq::empty()]
    } else {
        let before = parts(path.drop_last());
        if path.last() == '/' {
            before.push(Seq::empty())
        } else {
            before.drop_last().push(before.last().push(path.last()))
        }
    }
}

/// A part of a path is one of its components: it is not empty, and not a dot except in front.
pub open spec fn is_component(part: Seq<char>, first: bool) -> bool {
    part.len() > 0 && (part != seq!['.'] || first)
}

/// The components among the first parts of a path.
pub open spec fn kept(parts: Seq<Seq<char>>, count: nat) -> Seq<Seq<char>>
    decreases count,
{
    if count == 0 {
        Seq::empty()
    } else {
        let before = kept(parts, (count - 1) as nat);
        if is_component(parts[count - 1], count == 1) {
            before.push(parts[count - 1])
        } else {
            before
        }
    }
}

/// The components of a path. Those of an absolute path begin with a slash.
pub open spec fn components(path: Seq<char>) -> Seq<Seq<char>> {
    let rest = kept(parts(path), parts(path).len());
    if path.len() > 0 && path[0] == '/' {
        seq![seq!['/']] + rest
    } else {
        rest
    }
}

/// The path lies below another one, or is it.
pub open spec fn is_below(path: Seq<char>, directory: Seq<char>) -> bool {
    components(directory).is_prefix_of(components(path))
}

fn split_parts(path: &str) -> (found: Vec<String>)
    ensures
        texts(found@) == parts(path@),
{
    let characters = chars(path);
    let mut found: Vec<String> = Vec::new();
    let mut part: Vec<char> = Vec::new();
    let mut i: usize = 0;
    proof {
        assert(path@.take(0) =~= Seq::empty());
        assert(texts(found@) =~= Seq::empty());
        assert(texts(found@).push(part@) =~= parts(path@.take(0)));
    }
    while i < characters.len()
        invariant
            i <= characters@.len(),
            characters@ == path@,
            texts(found@).push(part@) == parts(path@.take(i as int)),
        decreases characters@.len() - i,
    {
        proof {
            assert(path@.take(i + 1).drop_last() =~= path@.take(i as int));
            assert(path@.take(i + 1).last() == path@[i as int]);
            assert(texts(found@).push(part@).drop_last() =~= texts(found@));
            assert(texts(found@).push(part@).last() == part@);
        }
        let ghost before = texts(found@);
        let ghost old_part = part@;
        if characters[i] == '/' {
            let text = from_chars(part.as_slice());
            found.push(text);
            part = Vec::new();
            proof {
                assert(texts(found@) =~= before.push(old_part));
                assert(part@ =~= Seq::empty());
            }
        } else {
            part.push(characters[i]);
        }
        i += 1;
    }
    assert(path@.take(i as int) =~= path@);
    let ghost before = texts(found@);
    let text = from_chars(part.as_slice());
    found.push(text);
    assert(texts(found@) =~= before.push(part@));
    found
}

/// Split a path into its components.
pub fn path_components(path: &str) -> (found: Vec<String>)
    ensures
        texts(found@) == components(path@),
{
    let split = split_parts(path);
    let characters = chars(path);
    let mut found: Vec<String> = Vec::new();
    let ghost mut front: Seq<Seq<char>> = Seq::empty();
    if characters.len() > 0 && characters[0] == '/' {
        found.push("/".to_owned());
        proof {
            reveal_strlit("/");
            assert("/"@ =~= seq!['/']);
            front = seq![seq!['/']];
        }
    }
    assert(texts(found@) =~= front);
    let mut i: usize = 0;
    assert(front =~= front + kept(texts(split@), 0));
    while i < split.len()
        invariant
            i <= split@.len(),
            texts(found@) == front + kept(texts(split@), i as nat),
        decreases split@.len() - i,
    {
        let ghost before = texts(found@);
        assert(texts(split@)[i as int] == split@[i as int]@);
        proof {
            reveal_strlit("");
            reveal_strlit(".");
            assert("."@ =~= seq!['.']);
            assert(split@[i as int]@.len() == 0 ==> split@[i as int]@ =~= ""@);
        }
        if !same_text(split[i].as_str(), "") && (i == 0 || !same_text(split[i].as_str(), ".")) {
            found.push(split[i].clone());
            assert(texts(found@) =~= before.push(split@[i as int]@));
        }
        assert(texts(found@) =~= front + kept(texts(split@), (i + 1) as nat));
        i += 1;
    }
    found
}

fn has_front(all: &Vec<String>, front: &Vec<String>) -> (found: bool)
    ensures
        found == texts(front@).is_prefix_of(texts(all@)),
{
    if front.len() > all.len() {
        return false;
    }
    let mut i: usize = 0;
    while i < front.len()
        invariant
            i <= front@.len() <= all@.len(),
            forall|j: int| 0 <= j < i ==> #[trigger] front@[j]@ == all@[j]@,
        decreases front@.len() - i,
    {
        if !same_text(front[i].as_str(), all[i].as_str()) {
            assert(texts(front@)[i as int] != texts(all@).subrange(
                0,
                front@.len() as int,
            )[i as int]);
            return false;
        }
        i += 1;
    }
    assert(texts(front@) =~= texts(all@).subrange(0, front@.len() as int));
    true
}

/// What lies below the root of a project on the way to a pack: the components that must not be
/// links.
///
/// # Errors
///
/// Returns an error when the pack does not lie below the root, by its own name or its real one.
pub fn below_root(candidate: &str, project_root: &str, real_root: &str) -> (result: Result<
    Vec<String>,
    String,
>)
    ensures
        ({
            let path = components(joined(project_root@, candidate@));
            if is_below(joined(project_root@, candidate@), project_root@) {
                result matches Ok(rest) && texts(rest@) == path.skip(
                    components(project_root@).len() as int,
                )
            } else if is_below(joined(project_root@, candidate@), real_root@) {
                result matches Ok(rest) && texts(rest@) == path.skip(
                    components(real_root@).len() as int,
                )
            } else {
                result matches Err(error) && error@
                    == "project rule pack is not beneath the trusted project root"@
            }
        }),
{
    let path = join_path(project_root, candidate);
    let all = path_components(path.as_str());
    let named = path_components(project_root);
    let resolved = path_components(real_root);
    let skipped: usize = if has_front(&all, &named) {
        named.len()
    } else if has_front(&all, &resolved) {
        resolved.len()
    } else {
        return Err("project rule pack is not beneath the trusted project root".to_owned());
    };
    proof {
        assert(texts(named@).len() == named@.len());
        assert(texts(resolved@).len() == resolved@.len());
        assert(texts(all@).len() == all@.len());
    }
    let mut rest: Vec<String> = Vec::new();
    let mut i: usize = skipped;
    while i < all.len()
        invariant
            skipped <= i <= all@.len(),
            rest@.len() == i - skipped,
            forall|j: int| 0 <= j < rest@.len() ==> #[trigger] rest@[j]@ == all@[skipped + j]@,
        decreases all@.len() - i,
    {
        rest.push(all[i].clone());
        i += 1;
    }
    assert(texts(rest@) =~= texts(all@).skip(skipped as int));
    Ok(rest)
}

/// What is wrong with a pack that a project keeps.
pub open spec fn project_pack_fault(
    has_link: bool,
    is_file: bool,
    real_path: Seq<char>,
    real_root: Seq<char>,
) -> Option<Seq<char>> {
    if has_link {
        Some("project rule pack path must not contain symlinks"@)
    } else if !is_file {
        Some("project rule pack must be a regular file"@)
    } else if !is_below(real_path, real_root) {
        Some("project rule pack escapes the trusted project root"@)
    } else {
        None
    }
}

/// Check a pack that a project keeps, given what the file system says of it.
///
/// # Errors
///
/// Returns an error when a link stands on the way to it, when it is no regular file, or when it
/// really lies outside of the project.
pub fn check_project_pack(has_link: bool, is_file: bool, real_path: &str, real_root: &str) -> (result:
    Result<(), String>)
    ensures
        reports(result, project_pack_fault(has_link, is_file, real_path@, real_root@)),
{
    if has_link {
        return Err("project rule pack path must not contain symlinks".to_owned());
    }
    if !is_file {
        return Err("project rule pack must be a regular file".to_owned());
    }
    let path = path_components(real_path);
    let root = path_components(real_root);
    if !has_front(&path, &root) {
        return Err("project rule pack escapes the trusted project root".to_owned());
    }
    Ok(())
}

} // verus!
