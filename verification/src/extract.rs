//! The extraction of a package into a plain asset tree: the verbatim copy
//! of a package without manifest, and the decryption, renaming and
//! descriptor rewriting of a package with one.

use crate::cipher::{cipher, decrypt_lcg_xor};
use crate::container::{is_manifest_entry, ArchiveEntry, Container, EntryView};
use crate::hash::{derive_key, entry_key};
use crate::laws::lemma_extraction_sound;
use crate::manifest::{
    all_paths, declares_encryption, empty_sidecar, load_external_config, model_id_of,
    needs_sidecar, ExternalConfig, ManifestView, MlveManifest, SidecarView,
};
use crate::names::{
    is_descriptor_name, is_hashed_entry, is_hashed_name, is_manifest_name, is_model_descriptor,
    is_plain_name,
    manifest_hash, payload_stem, payload_stem_len, sanitize_filename, sanitized,
};
use crate::outside::text_of_bytes;
use crate::sniff::{detect_extension, extension_of, kind_of};
use crate::table::{lookup, put, without, Table};
use crate::text::{bytes_contain, chars_of, contains, replace_all, replace_bytes};
use vstd::prelude::*;
use vstd::slice::slice_to_vec;
use vstd::string::*;
use vstd::utf8::{encode_utf8, valid_utf8};

verus! {

/// Why an extraction failed.
#[derive(Debug)]
pub enum ExtractError {
    /// An entry or the descriptor could not be read; the message says why.
    Io(String),
    /// A package without manifest holds no model descriptor.
    NoDescriptor,
    /// No costume of the manifest leads to a model descriptor.
    NoManagedDescriptor,
}

/// What an error holds.
pub enum ErrorView {
    Io(Seq<char>),
    NoDescriptor,
    NoManagedDescriptor,
}

impl View for ExtractError {
    type V = ErrorView;

    open spec fn view(&self) -> ErrorView {
        match self {
            ExtractError::Io(message) => ErrorView::Io(message@),
            ExtractError::NoDescriptor => ErrorView::NoDescriptor,
            ExtractError::NoManagedDescriptor => ErrorView::NoManagedDescriptor,
        }
    }
}

/// The message of an error.
pub open spec fn message_of(error: ErrorView) -> Seq<char> {
    match error {
        ErrorView::Io(message) => message,
        ErrorView::NoDescriptor => "No .model3.json or .model.json found in archive"@,
        ErrorView::NoManagedDescriptor => "No model descriptor found in encrypted LPK"@,
    }
}

impl ExtractError {
    /// The message of the error, for the user.
    pub fn message(&self) -> (text: String)
        ensures
            text@ == message_of(self@),
    {
        match self {
            ExtractError::Io(message) => message.clone(),
            ExtractError::NoDescriptor => "No .model3.json or .model.json found in archive".to_owned(),
            ExtractError::NoManagedDescriptor => "No model descriptor found in encrypted LPK".to_owned(),
        }
    }
}

/// The result of an extraction: the files of the output tree, by their
/// paths below its root, and the path of the model descriptor among them.
#[derive(Debug)]
pub struct Extraction {
    /// The files of the output tree.
    pub files: Table<Vec<u8>>,
    /// The path of the model descriptor.
    pub descriptor: String,
}

/// What an extraction holds.
pub struct ExtractionView {
    pub files: Seq<(Seq<char>, Seq<u8>)>,
    pub descriptor: Seq<char>,
}

impl View for Extraction {
    type V = ExtractionView;

    open spec fn view(&self) -> ExtractionView {
        ExtractionView { files: self.files@, descriptor: self.descriptor@ }
    }
}

/// What the result of an extraction holds.
pub open spec fn outcome(result: Result<Extraction, ExtractError>) -> Result<
    ExtractionView,
    ErrorView,
> {
    match result {
        Ok(extraction) => Ok(extraction@),
        Err(error) => Err(error@),
    }
}

/// The files of a package without manifest: every entry under its own
/// name, with its own bytes. The first entry that could not be read fails
/// the copy with its message.
pub open spec fn copied(entries: Seq<EntryView>) -> Result<Seq<(Seq<char>, Seq<u8>)>, ErrorView>
    decreases entries.len(),
{
    if entries.len() == 0 {
        Ok(Seq::empty())
    } else {
        match copied(entries.drop_last()) {
            Err(error) => Err(error),
            Ok(files) => match entries.last().content {
                Err(message) => Err(ErrorView::Io(message)),
                Ok(data) => Ok(put(files, entries.last().name, data)),
            },
        }
    }
}

/// The path of the first file, in the order of the tree, that is named as
/// a model descriptor.
pub open spec fn first_descriptor(files: Seq<(Seq<char>, Seq<u8>)>) -> Option<Seq<char>>
    decreases files.len(),
{
    if files.len() == 0 {
        None
    } else {
        match first_descriptor(files.drop_last()) {
            Some(path) => Some(path),
            None => if is_descriptor_name(files.last().0) {
                Some(files.last().0)
            } else {
                None
            },
        }
    }
}

/// The extraction of a package without manifest: its entries copied, and
/// the first model descriptor among them.
pub open spec fn plain_extraction(entries: Seq<EntryView>) -> Result<ExtractionView, ErrorView> {
    match copied(entries) {
        Err(error) => Err(error),
        Ok(files) => match first_descriptor(files) {
            Some(path) => Ok(ExtractionView { files, descriptor: path }),
            None => Err(ErrorView::NoDescriptor),
        },
    }
}

/// Finds the model descriptor in an output tree: the first file, in the
/// order of the tree, whose name ends in `.model3.json` or `.model.json`.
pub fn find_model_json(files: &Table<Vec<u8>>) -> (found: Option<String>)
    ensures
        match first_descriptor(files@) {
            Some(path) => found is Some && found.unwrap()@ == path,
            None => found is None,
        },
{
    let mut i: usize = 0;
    while i < files.len()
        invariant
            i <= files@.len(),
            first_descriptor(files@.take(i as int)) is None,
        decreases files@.len() - i,
    {
        let name = files.key_at(i);
        proof {
            assert(files@.take(i + 1).drop_last() =~= files@.take(i as int));
        }
        if is_model_descriptor(name.as_str()) {
            proof {
                lemma_first_descriptor_grows(files@.take(i + 1), files@);
            }
            return Some(name.clone());
        }
        i += 1;
    }
    proof {
        assert(files@.take(files@.len() as int) =~= files@);
    }
    None
}

/// A descriptor found among the first files is the one found among all.
proof fn lemma_first_descriptor_grows(
    front: Seq<(Seq<char>, Seq<u8>)>,
    files: Seq<(Seq<char>, Seq<u8>)>,
)
    requires
        front.len() <= files.len(),
        front == files.take(front.len() as int),
        first_descriptor(front) is Some,
    ensures
        first_descriptor(files) == first_descriptor(front),
    decreases files.len() - front.len(),
{
    if front.len() < files.len() {
        let next = files.take(front.len() as int + 1);
        assert(next.drop_last() =~= front);
        lemma_first_descriptor_grows(next, files);
    } else {
        assert(front =~= files);
    }
}

/// Extracts a package without manifest: every entry is copied under its
/// own name, and the first model descriptor among them is the result.
pub fn extract_regular_lpk(container: &Container) -> (result: Result<Extraction, ExtractError>)
    ensures
        outcome(result) == plain_extraction(container@),
{
    let mut files: Table<Vec<u8>> = Table::new();
    let mut i: usize = 0;
    assert(container@.take(0) =~= Seq::<EntryView>::empty());
    while i < container.entries.len()
        invariant
            i <= container.entries.len(),
            copied(container@.take(i as int)) == Ok::<_, ErrorView>(files@),
        decreases container.entries.len() - i,
    {
        let entry = &container.entries[i];
        proof {
            assert(container@.take(i + 1).drop_last() =~= container@.take(i as int));
            assert(container@.take(i + 1).last() == entry@);
        }
        match &entry.content {
            Ok(data) => {
                files.put(entry.name.clone(), slice_to_vec(data.as_slice()));
            },
            Err(message) => {
                proof {
                    lemma_copied_fails(container@.take(i + 1), container@);
                }
                return Err(ExtractError::Io(message.clone()));
            },
        }
        i += 1;
    }
    proof {
        assert(container@.take(container@.len() as int) =~= container@);
    }
    match find_model_json(&files) {
        Some(path) => Ok(Extraction { files, descriptor: path }),
        None => Err(ExtractError::NoDescriptor),
    }
}

/// A copy that fails on the first entries fails alike on all.
proof fn lemma_copied_fails(front: Seq<EntryView>, entries: Seq<EntryView>)
    requires
        front.len() <= entries.len(),
        front == entries.take(front.len() as int),
        copied(front) is Err,
    ensures
        copied(entries) == copied(front),
    decreases entries.len() - front.len(),
{
    if front.len() < entries.len() {
        let next = entries.take(front.len() as int + 1);
        assert(next.drop_last() =~= front);
        lemma_copied_fails(next, entries);
    } else {
        assert(front =~= entries);
    }
}

/// What has been written while the entries of a package with manifest are
/// gone through: the files of the output tree, and the renames, from the
/// name of each hashed entry to the name of its file.
pub struct Progress {
    pub files: Seq<(Seq<char>, Seq<u8>)>,
    pub renames: Seq<(Seq<char>, Seq<char>)>,
}

/// The bytes that are written for an entry: those of a hashed entry of an
/// encrypted package are run through the cipher, under the key of the
/// entry; all others are written as they are.
pub open spec fn plaintext(
    manifest: ManifestView,
    sidecar: SidecarView,
    name: Seq<char>,
    data: Seq<u8>,
) -> Seq<u8> {
    if declares_encryption(manifest) && is_hashed_name(name) {
        cipher(data, entry_key(model_id_of(manifest), sidecar, name, needs_sidecar(manifest)))
    } else {
        data
    }
}

/// `name` with its payload suffix replaced by `extension`.
pub open spec fn with_extension(name: Seq<char>, extension: Seq<char>) -> Seq<char> {
    let stem = match payload_stem(name) {
        Some(stem) => stem,
        None => name,
    };
    stem + "."@ + extension
}

/// The name under which the bytes `plain` of the entry `name` are written:
/// for a hashed entry its stem with the extension that the bytes call for,
/// for any other entry its own name.
pub open spec fn output_name(name: Seq<char>, plain: Seq<u8>) -> Seq<char> {
    if is_hashed_name(name) {
        with_extension(name, extension_of(kind_of(plain)))
    } else {
        name
    }
}

/// The progress after one more entry. The manifest and its aliases are
/// passed over; an entry that could not be read fails the extraction with
/// its message.
pub open spec fn after_entry(
    progress: Progress,
    entry: EntryView,
    manifest: ManifestView,
    sidecar: SidecarView,
) -> Result<Progress, ErrorView> {
    if is_manifest_name(entry.name) {
        Ok(progress)
    } else {
        match entry.content {
            Err(message) => Err(ErrorView::Io(message)),
            Ok(data) => {
                let plain = plaintext(manifest, sidecar, entry.name, data);
                let target = output_name(entry.name, plain);
                Ok(
                    Progress {
                        files: put(progress.files, target, plain),
                        renames: if is_hashed_name(entry.name) {
                            put(progress.renames, entry.name, target)
                        } else {
                            progress.renames
                        },
                    },
                )
            },
        }
    }
}

/// The progress after all of `entries`, in order.
pub open spec fn after_entries(
    entries: Seq<EntryView>,
    manifest: ManifestView,
    sidecar: SidecarView,
) -> Result<Progress, ErrorView>
    decreases entries.len(),
{
    if entries.len() == 0 {
        Ok(Progress { files: Seq::empty(), renames: Seq::empty() })
    } else {
        match after_entries(entries.drop_last(), manifest, sidecar) {
            Err(error) => Err(error),
            Ok(progress) => after_entry(progress, entries.last(), manifest, sidecar),
        }
    }
}

/// The file to which a costume path leads: the one that the entry of that
/// path was renamed to, where it was renamed and the file is there.
pub open spec fn resolved(path: Seq<char>, progress: Progress) -> Option<Seq<char>> {
    match lookup(progress.renames, path) {
        Some(target) => if lookup(progress.files, target) is Some {
            Some(target)
        } else {
            None
        },
        None => None,
    }
}

/// The file to which the first of `paths` leads that leads to one.
pub open spec fn first_resolved(paths: Seq<Seq<char>>, progress: Progress) -> Option<Seq<char>>
    decreases paths.len(),
{
    if paths.len() == 0 {
        None
    } else {
        match first_resolved(paths.drop_last(), progress) {
            Some(target) => Some(target),
            None => resolved(paths.last(), progress),
        }
    }
}

/// `content` with every renamed entry name replaced by the name of its
/// file, one rename after the other in the order of the renames.
pub open spec fn rewritten(content: Seq<u8>, renames: Seq<(Seq<char>, Seq<char>)>) -> Seq<u8>
    decreases renames.len(),
{
    if renames.len() == 0 {
        content
    } else {
        replace_all(
            rewritten(content, renames.drop_last()),
            encode_utf8(renames.last().0),
            encode_utf8(renames.last().1),
        )
    }
}

/// The descriptor is of the modern generation: it holds the quoted word
/// `FileReferences` or the quoted word `Version`.
pub open spec fn is_modern(content: Seq<u8>) -> bool {
    contains(content, encode_utf8("\"FileReferences\""@)) || contains(
        content,
        encode_utf8("\"Version\""@),
    )
}

/// The stem of the file name of the final descriptor: the sanitized name
/// of the model, or `model` where the manifest names none.
pub open spec fn descriptor_stem(manifest: ManifestView) -> Seq<char> {
    match manifest.name {
        Some(name) => sanitized(name),
        None => "model"@,
    }
}

/// The file name of the final descriptor: its stem, then the suffix of the
/// generation of `content`.
pub open spec fn descriptor_file_name(manifest: ManifestView, content: Seq<u8>) -> Seq<char> {
    descriptor_stem(manifest) + "."@ + if is_modern(content) {
        "model3.json"@
    } else {
        "model.json"@
    }
}

/// The message of the failure to read a descriptor that is no text.
pub open spec fn not_text_message() -> Seq<char> {
    "stream did not contain valid UTF-8"@
}

/// The extraction that the progress `progress` ends in: the descriptor
/// that the first resolving costume leads to is rewritten and stored under
/// its final name, and the file it was read from is taken out.
pub open spec fn finished(progress: Progress, manifest: ManifestView) -> Result<
    ExtractionView,
    ErrorView,
> {
    match first_resolved(all_paths(manifest.list), progress) {
        None => Err(ErrorView::NoManagedDescriptor),
        Some(source) => {
            let content = lookup(progress.files, source).unwrap();
            if !valid_utf8(content) {
                Err(ErrorView::Io(not_text_message()))
            } else {
                let text = rewritten(content, progress.renames);
                let target = descriptor_file_name(manifest, text);
                Ok(
                    ExtractionView {
                        files: without(put(progress.files, target, text), source),
                        descriptor: target,
                    },
                )
            }
        },
    }
}

/// The extraction of a package with manifest.
pub open spec fn managed_extraction(
    entries: Seq<EntryView>,
    manifest: ManifestView,
    sidecar: SidecarView,
) -> Result<ExtractionView, ErrorView> {
    match after_entries(entries, manifest, sidecar) {
        Err(error) => Err(error),
        Ok(progress) => finished(progress, manifest),
    }
}

/// The name of the file of a hashed entry: the entry name with its payload
/// suffix replaced by `extension`.
pub fn renamed_entry(name: &str, extension: &str) -> (target: String)
    ensures
        target@ == with_extension(name@, extension@),
{
    let chars = chars_of(name);
    let stem_len = match payload_stem_len(chars.as_slice()) {
        Some(len) => len,
        None => chars.len(),
    };
    let stem = name.substring_char(0, stem_len);
    proof {
        match payload_stem(name@) {
            Some(found) => {
                assert(found.len() <= chars.len());
                assert(stem@ =~= found);
            },
            None => {
                assert(stem@ =~= name@);
            },
        }
    }
    let mut target = stem.to_owned();
    target.append(".");
    target.append(extension);
    target
}

/// Rewrites the references of a descriptor: every renamed entry name in
/// `content` becomes the name of its file.
pub fn rewrite_references(content: &[u8], renames: &Table<String>) -> (text: Vec<u8>)
    ensures
        text@ == rewritten(content@, renames@),
{
    let mut text: Vec<u8> = slice_to_vec(content);
    let mut i: usize = 0;
    assert(renames@.take(0) =~= Seq::<(Seq<char>, Seq<char>)>::empty());
    while i < renames.len()
        invariant
            i <= renames@.len(),
            text@ == rewritten(content@, renames@.take(i as int)),
        decreases renames@.len() - i,
    {
        proof {
            assert(renames@.take(i + 1).drop_last() =~= renames@.take(i as int));
        }
        let from = renames.key_at(i);
        let to = renames.value_at(i);
        text = replace_bytes(text.as_slice(), from.as_str().as_bytes(), to.as_str().as_bytes());
        i += 1;
    }
    proof {
        assert(renames@.take(renames@.len() as int) =~= renames@);
    }
    text
}

/// The file name of the final descriptor of a package. It is a plain
/// name: it leads into no directory.
pub fn descriptor_name(manifest: &MlveManifest, content: &[u8]) -> (name: String)
    ensures
        name@ == descriptor_file_name(manifest@, content@),
        is_plain_name(name@),
{
    proof {
        reveal_strlit("model");
        reveal_strlit(".");
        reveal_strlit("model3.json");
        reveal_strlit("model.json");
    }
    let modern = bytes_contain(content, "\"FileReferences\"".as_bytes()) || bytes_contain(
        content,
        "\"Version\"".as_bytes(),
    );
    let mut name = match &manifest.name {
        Some(given) => sanitize_filename(given.as_str()),
        None => "model".to_owned(),
    };
    name.append(".");
    if modern {
        name.append("model3.json");
    } else {
        name.append("model.json");
    }
    name
}

/// Goes through one entry of a package with manifest.
fn process_entry(
    files: &mut Table<Vec<u8>>,
    renames: &mut Table<String>,
    entry: &ArchiveEntry,
    manifest: &MlveManifest,
    sidecar: &ExternalConfig,
    hashed_manifest: &String,
) -> (result: Result<(), ExtractError>)
    requires
        hashed_manifest@ == crate::names::manifest_hash_name(),
    ensures
        match after_entry(
            Progress { files: old(files)@, renames: old(renames)@ },
            entry@,
            manifest@,
            sidecar@,
        ) {
            Ok(progress) => result is Ok && final(files)@ == progress.files && final(renames)@
                == progress.renames,
            Err(error) => result is Err && result.unwrap_err()@ == error,
        },
{
    if is_manifest_entry(&entry.name, hashed_manifest) {
        return Ok(());
    }
    let hashed = is_hashed_entry(entry.name.as_str());
    let data: &Vec<u8> = match &entry.content {
        Ok(data) => data,
        Err(message) => {
            return Err(ExtractError::Io(message.clone()));
        },
    };
    let plain: Vec<u8> = if manifest.is_encrypted() && hashed {
        let model_id = manifest.model_id();
        let key = derive_key(model_id.as_str(), sidecar, entry.name.as_str(), manifest.is_stm());
        decrypt_lcg_xor(data.as_slice(), key)
    } else {
        slice_to_vec(data.as_slice())
    };
    if hashed {
        let target = renamed_entry(entry.name.as_str(), detect_extension(plain.as_slice()));
        renames.put(entry.name.clone(), target.clone());
        files.put(target, plain);
    } else {
        files.put(entry.name.clone(), plain);
    }
    Ok(())
}

/// A failure on the first entries is the failure on all.
proof fn lemma_after_entries_fails(
    front: Seq<EntryView>,
    entries: Seq<EntryView>,
    manifest: ManifestView,
    sidecar: SidecarView,
)
    requires
        front.len() <= entries.len(),
        front == entries.take(front.len() as int),
        after_entries(front, manifest, sidecar) is Err,
    ensures
        after_entries(entries, manifest, sidecar) == after_entries(front, manifest, sidecar),
    decreases entries.len() - front.len(),
{
    if front.len() < entries.len() {
        let next = entries.take(front.len() as int + 1);
        assert(next.drop_last() =~= front);
        lemma_after_entries_fails(next, entries, manifest, sidecar);
    } else {
        assert(front =~= entries);
    }
}

/// A costume that resolves among the first paths is the one that resolves
/// among all.
proof fn lemma_first_resolved_grows(
    front: Seq<Seq<char>>,
    paths: Seq<Seq<char>>,
    progress: Progress,
)
    requires
        front.len() <= paths.len(),
        front == paths.take(front.len() as int),
        first_resolved(front, progress) is Some,
    ensures
        first_resolved(paths, progress) == first_resolved(front, progress),
    decreases paths.len() - front.len(),
{
    if front.len() < paths.len() {
        let next = paths.take(front.len() as int + 1);
        assert(next.drop_last() =~= front);
        lemma_first_resolved_grows(next, paths, progress);
    } else {
        assert(front =~= paths);
    }
}

/// Ends the extraction of a package with manifest: finds the descriptor
/// that the first resolving costume leads to, rewrites its references and
/// stores it under its final name, which is returned. Where this fails the
/// files are left as they are.
pub fn resolve_descriptor(
    files: &mut Table<Vec<u8>>,
    renames: &Table<String>,
    manifest: &MlveManifest,
) -> (result: Result<String, ExtractError>)
    ensures
        match finished(Progress { files: old(files)@, renames: renames@ }, manifest@) {
            Ok(extraction) => result is Ok && result.unwrap()@ == extraction.descriptor
                && final(files)@ == extraction.files,
            Err(error) => result is Err && result.unwrap_err()@ == error && final(files)@ == old(
                files,
            )@,
        },
        result matches Ok(descriptor) ==> is_plain_name(descriptor@),
{
    let ghost progress = Progress { files: files@, renames: renames@ };
    let paths = manifest.costume_paths();
    let ghost all = all_paths(manifest@.list);
    let mut i: usize = 0;
    assert(all.take(0) =~= Seq::<Seq<char>>::empty());
    while i < paths.len()
        invariant
            i <= paths@.len(),
            paths@.len() == all.len(),
            forall|k: int| 0 <= k < paths@.len() ==> paths@[k]@ == all[k],
            first_resolved(all.take(i as int), progress) is None,
            progress == (Progress { files: old(files)@, renames: renames@ }),
            files@ == old(files)@,
            all == all_paths(manifest@.list),
        decreases paths@.len() - i,
    {
        proof {
            assert(all.take(i + 1).drop_last() =~= all.take(i as int));
            assert(all.take(i + 1).last() == paths@[i as int]@);
        }
        match renames.get(&paths[i]) {
            Some(source) => {
                let found: Option<Vec<u8>> = match files.get(source) {
                    Some(content) => Some(slice_to_vec(content.as_slice())),
                    None => None,
                };
                match found {
                    Some(content) => {
                        proof {
                            assert(resolved(all[i as int], progress) == Some(source@));
                            lemma_first_resolved_grows(all.take(i + 1), all, progress);
                        }
                        if text_of_bytes(content.as_slice()).is_none() {
                            return Err(
                                ExtractError::Io("stream did not contain valid UTF-8".to_owned()),
                            );
                        }
                        let text = rewrite_references(content.as_slice(), renames);
                        let target = descriptor_name(manifest, text.as_slice());
                        files.put(target.clone(), text);
                        files.remove(source);
                        return Ok(target);
                    },
                    None => {},
                }
            },
            None => {},
        }
        i += 1;
    }
    proof {
        assert(all.take(all.len() as int) =~= all);
    }
    Err(ExtractError::NoManagedDescriptor)
}

/// Extracts a package with manifest: every entry but the manifest is
/// written, the hashed ones decrypted where the manifest says so and
/// renamed after what they hold; then the model descriptor is resolved.
/// The descriptor is stored under a plain name.
pub fn extract_encrypted_lpk(
    container: &Container,
    manifest: &MlveManifest,
    sidecar: &ExternalConfig,
) -> (result: Result<Extraction, ExtractError>)
    ensures
        outcome(result) == managed_extraction(container@, manifest@, sidecar@),
        result matches Ok(extraction) ==> is_plain_name(extraction.descriptor@),
{
    let mut files: Table<Vec<u8>> = Table::new();
    let mut renames: Table<String> = Table::new();
    let hashed_manifest = manifest_hash();
    let mut i: usize = 0;
    assert(container@.take(0) =~= Seq::<EntryView>::empty());
    while i < container.entries.len()
        invariant
            i <= container.entries.len(),
            hashed_manifest@ == crate::names::manifest_hash_name(),
            after_entries(container@.take(i as int), manifest@, sidecar@) == Ok::<_, ErrorView>(
                Progress { files: files@, renames: renames@ },
            ),
        decreases container.entries.len() - i,
    {
        let entry = &container.entries[i];
        proof {
            assert(container@.take(i + 1).drop_last() =~= container@.take(i as int));
            assert(container@.take(i + 1).last() == entry@);
        }
        match process_entry(&mut files, &mut renames, entry, manifest, sidecar, &hashed_manifest) {
            Ok(()) => {},
            Err(error) => {
                proof {
                    lemma_after_entries_fails(
                        container@.take(i + 1),
                        container@,
                        manifest@,
                        sidecar@,
                    );
                }
                return Err(error);
            },
        }
        i += 1;
    }
    proof {
        assert(container@.take(container@.len() as int) =~= container@);
    }
    match resolve_descriptor(&mut files, &renames, manifest) {
        Ok(descriptor) => Ok(Extraction { files, descriptor }),
        Err(error) => Err(error),
    }
}

/// How a package is to be extracted, decided once after the manifest was
/// looked for.
#[derive(Debug)]
pub enum Package {
    /// No manifest: the entries are copied as they are.
    Plain,
    /// A manifest, and the sidecar that goes with it.
    Managed { manifest: MlveManifest, sidecar: ExternalConfig },
}

/// What a package decision holds.
pub enum PackageView {
    Plain,
    Managed { manifest: ManifestView, sidecar: SidecarView },
}

impl View for Package {
    type V = PackageView;

    open spec fn view(&self) -> PackageView {
        match self {
            Package::Plain => PackageView::Plain,
            Package::Managed { manifest, sidecar } => PackageView::Managed {
                manifest: manifest@,
                sidecar: sidecar@,
            },
        }
    }
}

/// The sidecar of a package with the manifest `manifest`, where `loaded`
/// is what was found beside the package: for the variant that needs the
/// sidecar, what was found or else the empty one; for any other variant
/// the empty one.
pub open spec fn sidecar_for(manifest: ManifestView, loaded: Option<SidecarView>) -> SidecarView {
    if needs_sidecar(manifest) {
        match loaded {
            Some(found) => found,
            None => empty_sidecar(),
        }
    } else {
        empty_sidecar()
    }
}

impl Package {
    /// Decides how a package is extracted, from the manifest that was
    /// found in it and the sidecar that was found beside it.
    pub fn select(manifest: Option<MlveManifest>, loaded: Option<ExternalConfig>) -> (package:
        Package)
        ensures
            match manifest {
                None => package@ == PackageView::Plain,
                Some(found) => package@ == (PackageView::Managed {
                    manifest: found@,
                    sidecar: sidecar_for(
                        found@,
                        match loaded {
                            Some(config) => Some(config@),
                            None => None,
                        },
                    ),
                }),
            },
    {
        match manifest {
            None => Package::Plain,
            Some(found) => {
                let sidecar = if found.is_stm() {
                    load_external_config(loaded)
                } else {
                    ExternalConfig::empty()
                };
                Package::Managed { manifest: found, sidecar }
            },
        }
    }
}

/// The extraction of a package.
pub open spec fn extraction_of(entries: Seq<EntryView>, package: PackageView) -> Result<
    ExtractionView,
    ErrorView,
> {
    match package {
        PackageView::Plain => plain_extraction(entries),
        PackageView::Managed { manifest, sidecar } => managed_extraction(
            entries,
            manifest,
            sidecar,
        ),
    }
}

/// Extracts a package: the files of its output tree and the path of the
/// model descriptor among them. No two files have one path, and the
/// descriptor is one of the files.
pub fn extract_lpk(container: &Container, package: &Package) -> (result: Result<
    Extraction,
    ExtractError,
>)
    ensures
        outcome(result) == extraction_of(container@, package@),
        result matches Ok(extraction) ==> extraction.files.well_formed() && is_descriptor_name(
            extraction.descriptor@,
        ) && lookup(extraction.files@, extraction.descriptor@) is Some,
{
    proof {
        lemma_extraction_sound(container@, package@);
    }
    match package {
        Package::Plain => extract_regular_lpk(container),
        Package::Managed { manifest, sidecar } => extract_encrypted_lpk(
            container,
            manifest,
            sidecar,
        ),
    }
}

} // verus!
