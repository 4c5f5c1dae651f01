//! What holds of every extraction: the copy of a package without manifest
//! is verbatim, the files of an output tree have distinct paths, an
//! extraction that ends well holds its descriptor, and an encrypted
//! descriptor is decrypted, rewritten and stored under the name of the
//! model.

use crate::cipher::{cipher, lemma_cipher_round_trip};
use crate::container::EntryView;
use crate::extract::{
    after_entries, after_entry, copied, descriptor_file_name, descriptor_stem, extraction_of,
    finished, first_descriptor, first_resolved, is_modern, managed_extraction, outcome,
    output_name, plain_extraction, plaintext, resolved, rewritten, with_extension, ErrorView,
    ExtractError, Extraction, ExtractionView, PackageView, Progress,
};
use crate::hash::entry_key;
use crate::manifest::{
    all_paths, declares_encryption, model_id_of, needs_sidecar, ManifestView, SidecarView,
};
use crate::names::{
    is_descriptor_name, is_hashed_name, is_lower_hex_digit, is_manifest_name,
    lemma_hashed_stem_lower, lemma_suffix_chars, payload_stem,
};
use crate::sniff::{extension_of, kind_of, AssetKind};
use crate::table::{
    distinct_keys, lemma_index_of, lemma_index_of_first, lemma_lookup_put, lemma_lookup_put_other,
    lemma_lookup_without, lemma_lookup_without_other, lemma_put_distinct, lemma_without_distinct,
    lookup, put, without,
};
use crate::text::{contains, has_suffix, lemma_replace_keeps_word};
use vstd::prelude::*;
use vstd::string::*;
use vstd::utf8::{encode_utf8, is_ascii_chars, is_ascii_chars_encode_utf8, valid_utf8};

verus! {

/// No two entries of `entries` have one name.
pub open spec fn distinct_names(entries: Seq<EntryView>) -> bool {
    forall|i: int, j: int| 0 <= i < j < entries.len() ==> entries[i].name != entries[j].name
}

/// Every entry of `entries` could be read.
pub open spec fn all_readable(entries: Seq<EntryView>) -> bool {
    forall|i: int| 0 <= i < entries.len() ==> entries[i].content is Ok
}

/// The entries as files: each under its name, with its bytes.
pub open spec fn as_files(entries: Seq<EntryView>) -> Seq<(Seq<char>, Seq<u8>)>
    recommends
        all_readable(entries),
{
    Seq::new(entries.len(), |i: int| (entries[i].name, entries[i].content->Ok_0))
}

/// The copy of a container whose entries are readable and have distinct
/// names holds exactly its entries, in their order.
pub proof fn lemma_copied_verbatim(entries: Seq<EntryView>)
    requires
        distinct_names(entries),
        all_readable(entries),
    ensures
        copied(entries) == Ok::<_, ErrorView>(as_files(entries)),
    decreases entries.len(),
{
    if entries.len() == 0 {
        assert(as_files(entries) =~= Seq::empty());
    } else {
        let front = entries.drop_last();
        lemma_copied_verbatim(front);
        let files = as_files(front);
        lemma_index_of(files, entries.last().name);
        assert(put(files, entries.last().name, entries.last().content->Ok_0) =~= as_files(
            entries,
        ));
    }
}

/// A copy fails exactly where an entry could not be read.
pub proof fn lemma_copied_fails_iff(entries: Seq<EntryView>)
    ensures
        copied(entries) is Err <==> !all_readable(entries),
    decreases entries.len(),
{
    if entries.len() > 0 {
        let front = entries.drop_last();
        lemma_copied_fails_iff(front);
        if all_readable(entries) {
            assert forall|i: int| 0 <= i < front.len() implies front[i].content is Ok by {
                assert(front[i] == entries[i]);
            }
        } else if all_readable(front) {
            assert(forall|i: int| 0 <= i < front.len() ==> front[i] == entries[i]);
        }
    }
}

/// The files of a copy have distinct paths.
pub proof fn lemma_copied_distinct(entries: Seq<EntryView>)
    ensures
        copied(entries) matches Ok(files) ==> distinct_keys(files),
    decreases entries.len(),
{
    if entries.len() > 0 {
        lemma_copied_distinct(entries.drop_last());
        match copied(entries.drop_last()) {
            Ok(files) => match entries.last().content {
                Ok(data) => lemma_put_distinct(files, entries.last().name, data),
                Err(_) => {},
            },
            Err(_) => {},
        }
    }
}

/// The descriptor that is found in a tree is the path of one of its
/// files, it is named as a model descriptor, and no file before it is.
pub proof fn lemma_first_descriptor(files: Seq<(Seq<char>, Seq<u8>)>)
    ensures
        match first_descriptor(files) {
            Some(path) => exists|i: int|
                0 <= i < files.len() && #[trigger] files[i].0 == path && is_descriptor_name(path)
                    && forall|j: int| 0 <= j < i ==> !is_descriptor_name(#[trigger] files[j].0),
            None => forall|j: int| 0 <= j < files.len() ==> !is_descriptor_name(#[trigger] files[j].0),
        },
    decreases files.len(),
{
    if files.len() > 0 {
        let front = files.drop_last();
        lemma_first_descriptor(front);
        assert(forall|j: int| 0 <= j < front.len() ==> front[j] == files[j]);
        match first_descriptor(front) {
            Some(path) => {
                let i = choose|i: int|
                    0 <= i < front.len() && #[trigger] front[i].0 == path && is_descriptor_name(
                        path,
                    ) && forall|j: int| 0 <= j < i ==> !is_descriptor_name(#[trigger] front[j].0);
                assert(files[i].0 == path);
            },
            None => {
                if is_descriptor_name(files.last().0) {
                    assert(files[files.len() - 1].0 == files.last().0);
                }
            },
        }
    }
}

/// A package without manifest that holds one readable entry, named as a
/// model descriptor, is extracted to that one file, and the file is the
/// descriptor.
pub proof fn lemma_single_descriptor(name: Seq<char>, data: Seq<u8>)
    requires
        is_descriptor_name(name),
    ensures
        plain_extraction(seq![EntryView { name, content: Ok(data) }]) == Ok::<_, ErrorView>(
            ExtractionView { files: seq![(name, data)], descriptor: name },
        ),
{
    let entries = seq![EntryView { name, content: Ok(data) }];
    lemma_copied_verbatim(entries);
    assert(as_files(entries) =~= seq![(name, data)]);
    let files = seq![(name, data)];
    assert(files.drop_last() =~= Seq::empty());
    assert(first_descriptor(files.drop_last()) is None);
}

/// `path` is the name of the file of a hashed entry: the stem of a hashed
/// entry name with the extension of some kind of payload.
pub open spec fn is_renamed_path(path: Seq<char>) -> bool {
    exists|name: Seq<char>, kind: AssetKind|
        is_hashed_name(name) && path == #[trigger] with_extension(name, extension_of(kind))
}

/// The file of a hashed entry is never named as a model descriptor.
pub proof fn lemma_renamed_not_descriptor(path: Seq<char>)
    requires
        is_renamed_path(path),
    ensures
        !is_descriptor_name(path),
{
    let (name, kind) = choose|name: Seq<char>, kind: AssetKind|
        is_hashed_name(name) && path == #[trigger] with_extension(name, extension_of(kind));
    let stem = payload_stem(name).unwrap();
    let ext = extension_of(kind);
    reveal_strlit(".");
    reveal_strlit("png");
    reveal_strlit("moc3");
    reveal_strlit("moc");
    reveal_strlit("wav");
    reveal_strlit("ogg");
    reveal_strlit("mp3");
    reveal_strlit("jpg");
    reveal_strlit("json");
    reveal_strlit("mtn");
    reveal_strlit("bin");
    reveal_strlit(".model3.json");
    reveal_strlit(".model.json");
    let n = path.len() as int;
    assert(n == 33 + ext.len());
    assert(path[32] == '.');
    assert(forall|k: int| 0 <= k < ext.len() ==> path[33 + k] == ext[k]);
    assert(forall|k: int| 0 <= k < 32 ==> path[k] == stem[k]);
    if has_suffix(path, ".model3.json"@) {
        lemma_suffix_chars(path, ".model3.json"@, 11);
        lemma_suffix_chars(path, ".model3.json"@, 8);
        lemma_suffix_chars(path, ".model3.json"@, 5);
        if ext.len() == 4 {
            assert(path[n - 1] == ext[3]);
            assert(path[n - 7] == stem[30]);
            assert(is_lower_hex_digit(stem[30]));
        } else {
            assert(path[n - 4] == '.');
        }
    }
    if has_suffix(path, ".model.json"@) {
        lemma_suffix_chars(path, ".model.json"@, 10);
        lemma_suffix_chars(path, ".model.json"@, 7);
        lemma_suffix_chars(path, ".model.json"@, 5);
        if ext.len() == 4 {
            assert(path[n - 1] == ext[3]);
            assert(path[n - 6] == stem[31]);
            assert(is_lower_hex_digit(stem[31]));
        } else {
            assert(path[n - 4] == '.');
        }
    }
}

/// The final name of a descriptor is that of a model descriptor.
pub proof fn lemma_descriptor_file_name(manifest: ManifestView, content: Seq<u8>)
    ensures
        is_descriptor_name(descriptor_file_name(manifest, content)),
{
    reveal_strlit(".");
    reveal_strlit("model3.json");
    reveal_strlit("model.json");
    reveal_strlit(".model3.json");
    reveal_strlit(".model.json");
    let stem = descriptor_stem(manifest);
    let name = descriptor_file_name(manifest, content);
    if is_modern(content) {
        assert(name.subrange(name.len() - 12, name.len() as int) =~= ".model3.json"@);
    } else {
        assert(name.subrange(name.len() - 11, name.len() as int) =~= ".model.json"@);
    }
}

/// While the entries are gone through, the files and the renames keep
/// distinct names, every rename leads from a hashed entry name to the
/// name of its file, and that file is there.
pub open spec fn sound_progress(progress: Progress) -> bool {
    &&& distinct_keys(progress.files)
    &&& distinct_keys(progress.renames)
    &&& forall|i: int|
        0 <= i < progress.renames.len() ==> is_hashed_name(#[trigger] progress.renames[i].0)
            && is_renamed_path(progress.renames[i].1) && lookup(
            progress.files,
            progress.renames[i].1,
        ) is Some
}

/// One more entry keeps the progress sound.
pub proof fn lemma_after_entry_sound(
    progress: Progress,
    entry: EntryView,
    manifest: ManifestView,
    sidecar: SidecarView,
)
    requires
        sound_progress(progress),
    ensures
        after_entry(progress, entry, manifest, sidecar) matches Ok(next) ==> sound_progress(next),
{
    match after_entry(progress, entry, manifest, sidecar) {
        Err(_) => {},
        Ok(next) => {
            if !is_manifest_name(entry.name) {
                let data = entry.content->Ok_0;
                let plain = plaintext(manifest, sidecar, entry.name, data);
                let target = output_name(entry.name, plain);
                lemma_put_distinct(progress.files, target, plain);
                lemma_lookup_put(progress.files, target, plain);
                assert forall|i: int| 0 <= i < progress.renames.len() implies lookup(
                    next.files,
                    #[trigger] progress.renames[i].1,
                ) is Some by {
                    assert(is_hashed_name(progress.renames[i].0));
                    if progress.renames[i].1 != target {
                        lemma_lookup_put_other(
                            progress.files,
                            target,
                            plain,
                            progress.renames[i].1,
                        );
                    }
                }
                if is_hashed_name(entry.name) {
                    lemma_put_distinct(progress.renames, entry.name, target);
                    lemma_index_of(progress.renames, entry.name);
                    assert(target == with_extension(entry.name, extension_of(kind_of(plain))));
                    assert(is_renamed_path(target));
                    assert forall|i: int| 0 <= i < next.renames.len() implies is_hashed_name(
                        #[trigger] next.renames[i].0,
                    ) && is_renamed_path(next.renames[i].1) && lookup(
                        next.files,
                        next.renames[i].1,
                    ) is Some by {
                        if next.renames[i] != (entry.name, target) {
                            assert(next.renames[i] == progress.renames[i]);
                        }
                    }
                }
            }
        },
    }
}

/// The progress after any entries is sound.
pub proof fn lemma_after_entries_sound(
    entries: Seq<EntryView>,
    manifest: ManifestView,
    sidecar: SidecarView,
)
    ensures
        after_entries(entries, manifest, sidecar) matches Ok(progress) ==> sound_progress(
            progress,
        ),
    decreases entries.len(),
{
    if entries.len() > 0 {
        lemma_after_entries_sound(entries.drop_last(), manifest, sidecar);
        match after_entries(entries.drop_last(), manifest, sidecar) {
            Ok(progress) => lemma_after_entry_sound(progress, entries.last(), manifest, sidecar),
            Err(_) => {},
        }
    }
}

/// The file that a costume resolves to is the file of a rename.
pub proof fn lemma_first_resolved_renamed(paths: Seq<Seq<char>>, progress: Progress)
    requires
        sound_progress(progress),
    ensures
        first_resolved(paths, progress) matches Some(source) ==> is_renamed_path(source)
            && lookup(progress.files, source) is Some,
    decreases paths.len(),
{
    if paths.len() > 0 {
        lemma_first_resolved_renamed(paths.drop_last(), progress);
        if first_resolved(paths.drop_last(), progress) is None {
            lemma_index_of(progress.renames, paths.last());
        }
    }
}

/// An extraction that ends well from sound progress holds its descriptor:
/// the descriptor is named as one, it stands in the files with its
/// rewritten text, the file it was read from is gone, and the files have
/// distinct names.
pub proof fn lemma_finished_sound(progress: Progress, manifest: ManifestView)
    requires
        sound_progress(progress),
    ensures
        finished(progress, manifest) matches Ok(extraction) ==> {
            &&& is_descriptor_name(extraction.descriptor)
            &&& distinct_keys(extraction.files)
            &&& first_resolved(all_paths(manifest.list), progress) matches Some(source)
            &&& lookup(progress.files, source) matches Some(content)
            &&& lookup(extraction.files, extraction.descriptor) == Some(
                rewritten(content, progress.renames),
            )
            &&& lookup(extraction.files, source) is None
        },
{
    match finished(progress, manifest) {
        Err(_) => {},
        Ok(extraction) => {
            let source = first_resolved(all_paths(manifest.list), progress).unwrap();
            lemma_first_resolved_renamed(all_paths(manifest.list), progress);
            let content = lookup(progress.files, source).unwrap();
            let text = rewritten(content, progress.renames);
            let target = descriptor_file_name(manifest, text);
            lemma_descriptor_file_name(manifest, text);
            lemma_renamed_not_descriptor(source);
            let stored = put(progress.files, target, text);
            lemma_put_distinct(progress.files, target, text);
            lemma_lookup_put(progress.files, target, text);
            lemma_without_distinct(stored, source);
            lemma_lookup_without_other(stored, source, target);
            lemma_lookup_without(stored, source);
        },
    }
}

/// An extraction that ends well holds its descriptor: the descriptor is
/// named as a model descriptor and is one of the files, and no two files
/// have one path.
pub proof fn lemma_extraction_sound(entries: Seq<EntryView>, package: PackageView)
    ensures
        extraction_of(entries, package) matches Ok(extraction) ==> {
            &&& is_descriptor_name(extraction.descriptor)
            &&& lookup(extraction.files, extraction.descriptor) is Some
            &&& distinct_keys(extraction.files)
        },
{
    match package {
        PackageView::Plain => {
            lemma_copied_distinct(entries);
            match copied(entries) {
                Ok(files) => {
                    lemma_first_descriptor(files);
                    if first_descriptor(files) is Some {
                        lemma_index_of(files, first_descriptor(files).unwrap());
                    }
                },
                Err(_) => {},
            }
        },
        PackageView::Managed { manifest, sidecar } => {
            lemma_after_entries_sound(entries, manifest, sidecar);
            match after_entries(entries, manifest, sidecar) {
                Ok(progress) => lemma_finished_sound(progress, manifest),
                Err(_) => {},
            }
        },
    }
}

/// A descriptor that holds the quoted word `FileReferences` or the quoted
/// word `Version` is stored under its stem with the modern suffix, any
/// other under its stem with the legacy suffix. The stem is the sanitized
/// name of the model, or `model` where the manifest names none.
pub proof fn lemma_descriptor_suffix(manifest: ManifestView, content: Seq<u8>)
    ensures
        is_modern(content) ==> descriptor_file_name(manifest, content) == descriptor_stem(
            manifest,
        ) + ".model3.json"@,
        !is_modern(content) ==> descriptor_file_name(manifest, content) == descriptor_stem(
            manifest,
        ) + ".model.json"@,
{
    reveal_strlit(".");
    reveal_strlit("model3.json");
    reveal_strlit("model.json");
    reveal_strlit(".model3.json");
    reveal_strlit(".model.json");
    let stem = descriptor_stem(manifest);
    assert("."@ + "model3.json"@ =~= ".model3.json"@);
    assert("."@ + "model.json"@ =~= ".model.json"@);
    assert(stem + "."@ + "model3.json"@ =~= stem + ".model3.json"@);
    assert(stem + "."@ + "model.json"@ =~= stem + ".model.json"@);
}

/// What was encrypted for a hashed entry is read back: where the manifest
/// declares encryption, the bytes written for a hashed entry that holds
/// the cipher text of `plain` under the key of that entry are `plain`.
pub proof fn lemma_plaintext_restored(
    manifest: ManifestView,
    sidecar: SidecarView,
    name: Seq<char>,
    plain: Seq<u8>,
)
    requires
        declares_encryption(manifest),
        is_hashed_name(name),
    ensures
        plaintext(
            manifest,
            sidecar,
            name,
            cipher(plain, entry_key(model_id_of(manifest), sidecar, name, needs_sidecar(manifest))),
        ) == plain,
{
    lemma_cipher_round_trip(
        plain,
        entry_key(model_id_of(manifest), sidecar, name, needs_sidecar(manifest)),
    );
}

/// An entry that is no hashed entry is written under its own name with
/// its own bytes, whatever the manifest says.
pub proof fn lemma_plain_entry_kept(
    manifest: ManifestView,
    sidecar: SidecarView,
    name: Seq<char>,
    data: Seq<u8>,
)
    requires
        !is_hashed_name(name),
    ensures
        plaintext(manifest, sidecar, name, data) == data,
        output_name(name, data) == name,
{
}

/// The bytes of a hashed entry name: one byte for each character, and no
/// quotation mark among them.
pub proof fn lemma_hashed_name_bytes(name: Seq<char>)
    requires
        is_hashed_name(name),
    ensures
        encode_utf8(name).len() == name.len(),
        name.len() >= 36,
        forall|i: int| 0 <= i < encode_utf8(name).len() ==> encode_utf8(name)[i] != 0x22,
{
    reveal_strlit(".bin3");
    reveal_strlit(".bin");
    lemma_hashed_stem_lower(name);
    let stem = payload_stem(name).unwrap();
    assert forall|i: int| 0 <= i < name.len() implies '\0' <= #[trigger] name[i] <= '\u{7f}'
        && name[i] != '"' by {
        if i < 32 {
            assert(name[i] == stem[i]);
            assert(is_lower_hex_digit(stem[i]));
        }
    }
    assert(is_ascii_chars(name));
    is_ascii_chars_encode_utf8(name);
    assert forall|i: int| 0 <= i < encode_utf8(name).len() implies encode_utf8(name)[i]
        != 0x22 by {
        assert(name[i] as u8 == encode_utf8(name)[i]);
        assert(name[i] != '"');
    }
}

/// The bytes of the two quoted words that tell a modern descriptor: each
/// begins and ends with a quotation mark.
pub proof fn lemma_generation_words()
    ensures
        encode_utf8("\"FileReferences\""@).len() == 16,
        encode_utf8("\"FileReferences\""@)[0] == 0x22,
        encode_utf8("\"FileReferences\""@)[15] == 0x22,
        encode_utf8("\"Version\""@).len() == 9,
        encode_utf8("\"Version\""@)[0] == 0x22,
        encode_utf8("\"Version\""@)[8] == 0x22,
{
    reveal_strlit("\"FileReferences\"");
    reveal_strlit("\"Version\"");
    let first = "\"FileReferences\""@;
    let second = "\"Version\""@;
    assert(is_ascii_chars(first));
    assert(is_ascii_chars(second));
    is_ascii_chars_encode_utf8(first);
    is_ascii_chars_encode_utf8(second);
    assert(first[0] as u8 == encode_utf8(first)[0]);
    assert(first[15] as u8 == encode_utf8(first)[15]);
    assert(second[0] as u8 == encode_utf8(second)[0]);
    assert(second[8] as u8 == encode_utf8(second)[8]);
}

/// Rewriting keeps a modern descriptor modern: the names of hashed entries
/// hold no quotation mark, so replacing them leaves the quoted words of
/// the descriptor in place.
pub proof fn lemma_rewrite_keeps_modern(content: Seq<u8>, renames: Seq<(Seq<char>, Seq<char>)>)
    requires
        forall|i: int| 0 <= i < renames.len() ==> is_hashed_name(#[trigger] renames[i].0),
        is_modern(content),
    ensures
        is_modern(rewritten(content, renames)),
    decreases renames.len(),
{
    if renames.len() > 0 {
        let front = renames.drop_last();
        assert forall|i: int| 0 <= i < front.len() implies is_hashed_name(
            #[trigger] front[i].0,
        ) by {
            assert(front[i] == renames[i]);
        }
        lemma_rewrite_keeps_modern(content, front);
        let before = rewritten(content, front);
        let from = encode_utf8(renames.last().0);
        let to = encode_utf8(renames.last().1);
        assert(is_hashed_name(renames[renames.len() - 1].0));
        lemma_hashed_name_bytes(renames.last().0);
        lemma_generation_words();
        if contains(before, encode_utf8("\"FileReferences\""@)) {
            lemma_replace_keeps_word(before, from, to, encode_utf8("\"FileReferences\""@));
        } else {
            lemma_replace_keeps_word(before, from, to, encode_utf8("\"Version\""@));
        }
    }
}

/// Every entry of `entries` is named as a manifest.
pub open spec fn all_manifest_names(entries: Seq<EntryView>) -> bool {
    forall|i: int| 0 <= i < entries.len() ==> is_manifest_name(#[trigger] entries[i].name)
}

/// Entries that are named as a manifest leave no trace: the progress after
/// `entries` and such entries behind them is the progress after `entries`.
pub proof fn lemma_manifest_entries_skipped(
    entries: Seq<EntryView>,
    skipped: Seq<EntryView>,
    manifest: ManifestView,
    sidecar: SidecarView,
)
    requires
        all_manifest_names(skipped),
        after_entries(entries, manifest, sidecar) is Ok,
    ensures
        after_entries(entries + skipped, manifest, sidecar) == after_entries(
            entries,
            manifest,
            sidecar,
        ),
    decreases skipped.len(),
{
    if skipped.len() == 0 {
        assert(entries + skipped =~= entries);
    } else {
        let front = skipped.drop_last();
        assert(all_manifest_names(front)) by {
            assert(forall|i: int| 0 <= i < front.len() ==> front[i] == skipped[i]);
        }
        lemma_manifest_entries_skipped(entries, front, manifest, sidecar);
        assert((entries + skipped).drop_last() =~= entries + front);
        assert((entries + skipped).last() == skipped[skipped.len() - 1]);
    }
}

/// A package whose manifest declares encryption and names one costume,
/// and that holds, beside entries named as a manifest, under the path of
/// that costume the cipher text of a descriptor with the quoted word
/// `FileReferences`, is extracted to one file: the descriptor, decrypted
/// and rewritten, under the stem of the manifest with the modern suffix.
pub proof fn lemma_encrypted_descriptor(
    manifest: ManifestView,
    sidecar: SidecarView,
    path: Seq<char>,
    plain: Seq<u8>,
    before: Seq<EntryView>,
    behind: Seq<EntryView>,
)
    requires
        declares_encryption(manifest),
        all_paths(manifest.list) == seq![path],
        is_hashed_name(path),
        !is_manifest_name(path),
        valid_utf8(plain),
        contains(plain, encode_utf8("\"FileReferences\""@)),
        all_manifest_names(before),
        all_manifest_names(behind),
    ensures
        ({
            let key = entry_key(model_id_of(manifest), sidecar, path, needs_sidecar(manifest));
            let entry = EntryView { name: path, content: Ok(cipher(plain, key)) };
            let text = rewritten(plain, seq![(path, output_name(path, plain))]);
            let target = descriptor_stem(manifest) + ".model3.json"@;
            managed_extraction(before + seq![entry] + behind, manifest, sidecar) == Ok::<
                _,
                ErrorView,
            >(ExtractionView { files: seq![(target, text)], descriptor: target })
        }),
{
    let key = entry_key(model_id_of(manifest), sidecar, path, needs_sidecar(manifest));
    let entry = EntryView { name: path, content: Ok(cipher(plain, key)) };
    let entries = before + seq![entry];
    let source = output_name(path, plain);
    let nothing = Progress { files: Seq::empty(), renames: Seq::empty() };
    lemma_plaintext_restored(manifest, sidecar, path, plain);
    let none = Seq::<EntryView>::empty();
    lemma_manifest_entries_skipped(none, before, manifest, sidecar);
    assert(none + before =~= before);
    assert(entries.drop_last() =~= before);
    assert(after_entries(entries.drop_last(), manifest, sidecar) == Ok::<_, ErrorView>(nothing));
    let files = seq![(source, plain)];
    let renames = seq![(path, source)];
    let progress = Progress { files, renames };
    assert(put(nothing.files, source, plain) =~= files);
    assert(put(nothing.renames, path, source) =~= renames);
    assert(after_entry(nothing, entry, manifest, sidecar) == Ok::<_, ErrorView>(progress));
    assert(after_entries(entries, manifest, sidecar) == Ok::<_, ErrorView>(progress));
    lemma_manifest_entries_skipped(entries, behind, manifest, sidecar);

    lemma_index_of_first(renames, path, 0);
    lemma_index_of_first(files, source, 0);
    assert(resolved(path, progress) == Some(source));
    let paths = all_paths(manifest.list);
    assert(paths.drop_last() =~= Seq::<Seq<char>>::empty());
    assert(first_resolved(paths.drop_last(), progress) is None);
    assert(first_resolved(paths, progress) == Some(source));

    assert(renames.drop_last() =~= Seq::<(Seq<char>, Seq<char>)>::empty());
    let text = rewritten(plain, renames);
    assert(is_modern(plain));
    lemma_rewrite_keeps_modern(plain, renames);
    lemma_descriptor_suffix(manifest, text);
    let target = descriptor_file_name(manifest, text);
    assert(target == descriptor_stem(manifest) + ".model3.json"@);

    assert(source == with_extension(path, extension_of(kind_of(plain))));
    assert(is_renamed_path(source));
    lemma_renamed_not_descriptor(source);
    lemma_descriptor_file_name(manifest, text);
    lemma_index_of(files, target);
    let stored = put(files, target, text);
    assert(stored =~= seq![(source, plain), (target, text)]);
    lemma_index_of_first(stored, source, 0);
    assert(without(stored, source) =~= seq![(target, text)]);
}

/// Extraction is repeatable: two extractions of one container under one
/// decision end alike, with the same files and the same descriptor or with
/// the same failure.
pub proof fn lemma_extraction_repeatable(
    entries: Seq<EntryView>,
    package: PackageView,
    first: Result<Extraction, ExtractError>,
    second: Result<Extraction, ExtractError>,
)
    requires
        outcome(first) == extraction_of(entries, package),
        outcome(second) == extraction_of(entries, package),
    ensures
        outcome(first) == outcome(second),
{
}

} // verus!
