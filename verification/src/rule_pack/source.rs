//! Source packs: a manifest and the rule files that it lists.
use vstd::prelude::*;
use vstd::utf8::encode_utf8;

use super::model::{PackManifest, Rule};
use super::validation::{
    MAX_RULES, MAX_SOURCE_BYTES, MAX_SOURCE_FILE_BYTES, manifest_fault, rules_fault,
    validate_manifest, validate_rules,
};
use crate::bytes::{append, copy, lit};
use crate::digest::{sha256, sha256_digest};
use crate::numbers::{append_le, le_bytes};
use crate::text::{join2, join3, reports};

verus! {

/// A source pack: its manifest, the rules that the manifest lists and the digest of its files.
#[derive(Clone, Debug)]
pub struct SourcePack {
    pub root: String,
    pub manifest: PackManifest,
    pub rules: Vec<Rule>,
    pub source_digest: [u8; 32],
}

/// The bytes of a rule file and what they decode to.
#[derive(Debug)]
pub struct SourceFile {
    pub body: Vec<u8>,
    pub decoded: Result<Rule, String>,
}

/// A part of a digest: its length and its bytes.
pub open spec fn measured(bytes: Seq<u8>) -> Seq<u8> {
    le_bytes(bytes.len(), 8) + bytes
}

/// The bytes that the digest of a source pack covers: the manifest, then the first `count` files
/// with their paths.
pub open spec fn digest_input(
    manifest: Seq<u8>,
    paths: Seq<String>,
    files: Seq<Result<SourceFile, String>>,
    count: nat,
) -> Seq<u8>
    decreases count,
{
    if count == 0 {
        lit("yarp-rule-source-v1\0") + (measured(lit("pack.json")) + measured(manifest))
    } else {
        digest_input(manifest, paths, files, (count - 1) as nat) + (measured(
            encode_utf8(paths[count - 1]@),
        ) + measured(files[count - 1]->Ok_0.body@))
    }
}

/// The bytes of the manifest and of the first `count` files.
pub open spec fn total_bytes(
    manifest: Seq<u8>,
    files: Seq<Result<SourceFile, String>>,
    count: nat,
) -> nat
    decreases count,
{
    if count == 0 {
        manifest.len()
    } else {
        total_bytes(manifest, files, (count - 1) as nat) + files[count - 1]->Ok_0.body@.len()
    }
}

/// What is wrong with the length of a file.
pub open spec fn length_fault(label: Seq<char>, length: nat) -> Option<Seq<char>> {
    if length > MAX_SOURCE_FILE_BYTES {
        Some(label + ": source file exceeds 65536 bytes"@)
    } else {
        None
    }
}

/// What is wrong with the first `count` files.
pub open spec fn files_fault(
    manifest: Seq<u8>,
    paths: Seq<String>,
    files: Seq<Result<SourceFile, String>>,
    count: nat,
) -> Option<Seq<char>>
    decreases count,
{
    if count == 0 {
        None
    } else {
        match files_fault(manifest, paths, files, (count - 1) as nat) {
            Some(fault) => Some(fault),
            None => match files[count - 1] {
                Err(error) => Some(error@),
                Ok(file) => match length_fault(paths[count - 1]@, file.body@.len()) {
                    Some(fault) => Some(fault),
                    None => if total_bytes(manifest, files, count) > MAX_SOURCE_BYTES {
                        Some("source pack exceeds 33554432 bytes"@)
                    } else {
                        match file.decoded {
                            Err(error) => Some(paths[count - 1]@ + ": "@ + error@),
                            Ok(rule) => None,
                        }
                    },
                },
            },
        }
    }
}

/// The rules of some files.
pub open spec fn file_rules(files: Seq<Result<SourceFile, String>>) -> Seq<Rule> {
    files.map_values(|file: Result<SourceFile, String>| file->Ok_0.decoded->Ok_0)
}

/// What is wrong with the files of a pack.
pub open spec fn source_fault(
    manifest_bytes: Seq<u8>,
    manifest: PackManifest,
    files: Seq<Result<SourceFile, String>>,
) -> Option<Seq<char>> {
    match files_fault(manifest_bytes, manifest.rules@, files, files.len()) {
        Some(fault) => Some(fault),
        None => rules_fault(file_rules(files)),
    }
}

proof fn lemma_files_fault_stays(
    manifest: Seq<u8>,
    paths: Seq<String>,
    files: Seq<Result<SourceFile, String>>,
    count: nat,
    total: nat,
)
    requires
        count <= total,
        files_fault(manifest, paths, files, count) is Some,
    ensures
        files_fault(manifest, paths, files, total) == files_fault(manifest, paths, files, count),
    decreases total,
{
    if count < total {
        lemma_files_fault_stays(manifest, paths, files, count, (total - 1) as nat);
    }
}

/// Check the length of a source file.
///
/// # Errors
///
/// Returns an error when the file is longer than a source file may be.
pub fn check_length(label: &str, length: u64) -> (result: Result<(), String>)
    ensures
        reports(result, length_fault(label@, length as nat)),
{
    if length > MAX_SOURCE_FILE_BYTES as u64 {
        return Err(join2(label, ": source file exceeds 65536 bytes"));
    }
    Ok(())
}

/// Check the manifest of a source pack, given its bytes and what they decode to.
///
/// # Errors
///
/// Returns an error when the bytes are too many, did not decode, or make up an invalid manifest.
pub fn check_manifest(bytes: &[u8], decoded: Result<PackManifest, String>) -> (result: Result<
    PackManifest,
    String,
>)
    ensures
        match length_fault("pack.json"@, bytes@.len()) {
            Some(fault) => result matches Err(error) && error@ == fault,
            None => match decoded {
                Err(reason) => result matches Err(error) && error@ == "pack.json"@ + ": "@
                    + reason@,
                Ok(manifest) => match manifest_fault(manifest) {
                    Some(fault) => result matches Err(error) && error@ == "pack.json"@ + ": "@
                        + fault,
                    None => result == Ok::<PackManifest, String>(manifest),
                },
            },
        },
{
    check_length("pack.json", bytes.len() as u64)?;
    match decoded {
        Err(error) => Err(join3("pack.json", ": ", error.as_str())),
        Ok(manifest) => {
            if let Err(error) = validate_manifest(&manifest) {
                return Err(join3("pack.json", ": ", error.as_str()));
            }
            Ok(manifest)
        },
    }
}

fn append_measured(output: &mut Vec<u8>, bytes: &[u8])
    ensures
        final(output)@ == old(output)@ + measured(bytes@),
{
    let mut part: Vec<u8> = Vec::new();
    append_le(&mut part, bytes.len() as u64, 8);
    assert(part@ =~= le_bytes(bytes@.len(), 8));
    append(&mut part, bytes);
    append(output, part.as_slice());
}

fn append_file(output: &mut Vec<u8>, path: &[u8], body: &[u8])
    ensures
        final(output)@ == old(output)@ + (measured(path@) + measured(body@)),
{
    let mut part: Vec<u8> = Vec::new();
    append_measured(&mut part, path);
    assert(part@ =~= measured(path@));
    append_measured(&mut part, body);
    append(output, part.as_slice());
}

impl SourcePack {
    /// Put a source pack together from its manifest and its rule files, one for each path that
    /// the manifest lists.
    ///
    /// # Errors
    ///
    /// Returns an error when a file could not be read, is too long or did not decode, when the
    /// files are too long together, or when the rules conflict.
    pub fn load(
        root: String,
        manifest_bytes: &[u8],
        manifest: PackManifest,
        files: Vec<Result<SourceFile, String>>,
    ) -> (result: Result<SourcePack, String>)
        requires
            manifest_fault(manifest) is None,
            manifest_bytes@.len() <= MAX_SOURCE_FILE_BYTES,
            files@.len() == manifest.rules@.len(),
        ensures
            match source_fault(manifest_bytes@, manifest, files@) {
                Some(fault) => result matches Err(error) && error@ == fault,
                None => result matches Ok(pack) && pack.root == root && pack.manifest == manifest
                    && pack.rules@ == file_rules(files@) && pack.source_digest@ == sha256(
                    digest_input(manifest_bytes@, manifest.rules@, files@, files@.len()),
                ),
            },
    {
        let ghost all = files@;
        let ghost paths = manifest.rules@;
        let mut input: Vec<u8> = copy("yarp-rule-source-v1\0".as_bytes());
        append_file(&mut input, "pack.json".as_bytes(), manifest_bytes);
        let mut total: usize = manifest_bytes.len();
        let mut rules: Vec<Rule> = Vec::new();
        let mut i: usize = 0;
        for file in it: files
            invariant
                it.seq() == all,
                i == it.index(),
                paths == manifest.rules@,
                all.len() == paths.len() <= MAX_RULES,
                total == total_bytes(manifest_bytes@, all, i as nat),
                total <= 65_536 * (i + 1),
                input@ == digest_input(manifest_bytes@, paths, all, i as nat),
                rules@ =~= file_rules(all).take(i as int),
                files_fault(manifest_bytes@, paths, all, i as nat) is None,
        {
            let path = manifest.rules[i].as_str();
            let read = match file {
                Ok(read) => read,
                Err(error) => {
                    proof {
                        lemma_files_fault_stays(
                            manifest_bytes@,
                            paths,
                            all,
                            i as nat + 1,
                            all.len(),
                        );
                    }
                    return Err(error);
                },
            };
            if let Err(error) = check_length(path, read.body.len() as u64) {
                proof {
                    lemma_files_fault_stays(manifest_bytes@, paths, all, i as nat + 1, all.len());
                }
                return Err(error);
            }
            total = total + read.body.len();
            if total > MAX_SOURCE_BYTES {
                proof {
                    lemma_files_fault_stays(manifest_bytes@, paths, all, i as nat + 1, all.len());
                }
                return Err("source pack exceeds 33554432 bytes".to_owned());
            }
            append_file(&mut input, path.as_bytes(), read.body.as_slice());
            match read.decoded {
                Ok(rule) => rules.push(rule),
                Err(error) => {
                    proof {
                        lemma_files_fault_stays(
                            manifest_bytes@,
                            paths,
                            all,
                            i as nat + 1,
                            all.len(),
                        );
                    }
                    return Err(join3(path, ": ", error.as_str()));
                },
            }
            i += 1;
        }
        assert(file_rules(all).take(all.len() as int) =~= file_rules(all));
        validate_rules(rules.as_slice())?;
        Ok(
            SourcePack {
                root,
                manifest,
                rules,
                source_digest: sha256_digest(input.as_slice()),
            },
        )
    }
}

} // verus!
