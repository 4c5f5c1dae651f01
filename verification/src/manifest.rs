//! The manifest of a package and the sidecar configuration that one
//! format variant keeps beside the package.

use crate::text::{chars_occur_at, chars_of, has_prefix};
use vstd::prelude::*;
use vstd::string::*;

verus! {

/// One costume of a character.
#[derive(Debug, Clone)]
pub struct MlveCostume {
    /// The display name of the costume.
    pub name: String,
    /// The entry of the container that holds the costume's model
    /// descriptor.
    pub path: String,
}

/// One character of a package.
#[derive(Debug, Clone)]
pub struct MlveCharacter {
    /// The avatar of the character.
    pub avatar: String,
    /// The costumes of the character, in order.
    pub costume: Vec<MlveCostume>,
}

/// The manifest of a package.
#[derive(Debug, Clone)]
pub struct MlveManifest {
    /// The format variant, such as `STM_1_0` or `STD_2_0`.
    pub format_type: Option<String>,
    /// `true` where the hashed entries are encrypted.
    pub encrypt: Option<String>,
    /// The identifier of the model, part of every entry key.
    pub id: Option<String>,
    /// The name of the model.
    pub name: Option<String>,
    /// The characters, in order.
    pub list: Vec<MlveCharacter>,
}

/// The sidecar configuration of the format variant that needs one.
#[derive(Debug, Clone)]
pub struct ExternalConfig {
    /// The file identifier, part of every entry key.
    pub file_id: String,
    /// The metadata, part of every entry key.
    pub meta_data: String,
}

/// What a sidecar configuration holds.
pub struct SidecarView {
    pub file_id: Seq<char>,
    pub meta_data: Seq<char>,
}

/// What a manifest holds: its four optional texts and, for each character,
/// the entry paths of its costumes.
pub struct ManifestView {
    pub format_type: Option<Seq<char>>,
    pub encrypt: Option<Seq<char>>,
    pub id: Option<Seq<char>>,
    pub name: Option<Seq<char>>,
    pub list: Seq<Seq<Seq<char>>>,
}

/// The text of an optional string.
pub open spec fn text_view(text: Option<String>) -> Option<Seq<char>> {
    match text {
        Some(s) => Some(s@),
        None => None,
    }
}

impl View for ExternalConfig {
    type V = SidecarView;

    open spec fn view(&self) -> SidecarView {
        SidecarView { file_id: self.file_id@, meta_data: self.meta_data@ }
    }
}

impl View for MlveCharacter {
    type V = Seq<Seq<char>>;

    open spec fn view(&self) -> Seq<Seq<char>> {
        Seq::new(self.costume@.len(), |i: int| self.costume@[i].path@)
    }
}

impl View for MlveManifest {
    type V = ManifestView;

    open spec fn view(&self) -> ManifestView {
        ManifestView {
            format_type: text_view(self.format_type),
            encrypt: text_view(self.encrypt),
            id: text_view(self.id),
            name: text_view(self.name),
            list: Seq::new(self.list@.len(), |i: int| self.list@[i]@),
        }
    }
}

/// The manifest declares its hashed entries encrypted.
pub open spec fn declares_encryption(manifest: ManifestView) -> bool {
    manifest.encrypt == Some("true"@)
}

/// The manifest is of the variant whose keys take in the sidecar.
pub open spec fn needs_sidecar(manifest: ManifestView) -> bool {
    match manifest.format_type {
        Some(variant) => has_prefix(variant, "STM"@),
        None => false,
    }
}

/// The model identifier of a manifest; empty where it names none.
pub open spec fn model_id_of(manifest: ManifestView) -> Seq<char> {
    match manifest.id {
        Some(id) => id,
        None => Seq::empty(),
    }
}

/// The costume paths of all characters, in order.
pub open spec fn all_paths(list: Seq<Seq<Seq<char>>>) -> Seq<Seq<char>>
    decreases list.len(),
{
    if list.len() == 0 {
        Seq::empty()
    } else {
        all_paths(list.drop_last()) + list.last()
    }
}

/// The sidecar that stands for a missing one: two empty texts.
pub open spec fn empty_sidecar() -> SidecarView {
    SidecarView { file_id: Seq::empty(), meta_data: Seq::empty() }
}

impl ExternalConfig {
    /// The sidecar with two empty texts.
    pub fn empty() -> (config: Self)
        ensures
            config@ == empty_sidecar(),
    {
        ExternalConfig { file_id: String::new(), meta_data: String::new() }
    }
}

/// Settles the sidecar of an extraction: what was loaded from beside the
/// package, or the empty sidecar where nothing was found there or it could
/// not be read.
pub fn load_external_config(loaded: Option<ExternalConfig>) -> (config: ExternalConfig)
    ensures
        match loaded {
            Some(found) => config == found,
            None => config@ == empty_sidecar(),
        },
{
    match loaded {
        Some(found) => found,
        None => ExternalConfig::empty(),
    }
}

/// The first of `candidates` that is there.
pub open spec fn first_parsed(candidates: Seq<Option<MlveManifest>>) -> Option<MlveManifest>
    decreases candidates.len(),
{
    if candidates.len() == 0 {
        None
    } else {
        match candidates[0] {
            Some(manifest) => Some(manifest),
            None => first_parsed(candidates.skip(1)),
        }
    }
}

/// Settles the manifest of a package. `parsed` holds, for each payload in
/// which a manifest is looked for and in their order, the manifest that
/// was read from it, or nothing where it holds none. The first manifest
/// is the one of the package; a package without any has no manifest.
pub fn read_manifest(parsed: Vec<Option<MlveManifest>>) -> (manifest: Option<MlveManifest>)
    ensures
        manifest == first_parsed(parsed@),
{
    let mut rest = parsed;
    let mut i: usize = 0;
    proof {
        assert(parsed@.skip(0) =~= parsed@);
    }
    while i < rest.len()
        invariant
            i <= rest@.len(),
            rest@.len() == parsed@.len(),
            forall|j: int| i <= j < rest@.len() ==> rest@[j] == parsed@[j],
            first_parsed(parsed@) == first_parsed(parsed@.skip(i as int)),
        decreases rest@.len() - i,
    {
        proof {
            assert(parsed@.skip(i as int)[0] == parsed@[i as int]);
            assert(parsed@.skip(i as int).skip(1) =~= parsed@.skip(i + 1));
        }
        let mut candidate: Option<MlveManifest> = None;
        std::mem::swap(&mut candidate, &mut rest[i]);
        if candidate.is_some() {
            return candidate;
        }
        i += 1;
    }
    None
}

impl MlveManifest {
    /// Tells whether the manifest declares its hashed entries encrypted.
    pub fn is_encrypted(&self) -> (r: bool)
        ensures
            r == declares_encryption(self@),
    {
        match &self.encrypt {
            Some(flag) => *flag == "true".to_owned(),
            None => false,
        }
    }

    /// Tells whether the manifest is of the variant that needs the sidecar.
    pub fn is_stm(&self) -> (r: bool)
        ensures
            r == needs_sidecar(self@),
    {
        match &self.format_type {
            Some(variant) => {
                let chars = chars_of(variant.as_str());
                let prefix = chars_of("STM");
                chars_occur_at(chars.as_slice(), prefix.as_slice(), 0)
            },
            None => false,
        }
    }

    /// The model identifier; empty where the manifest names none.
    pub fn model_id(&self) -> (id: String)
        ensures
            id@ == model_id_of(self@),
    {
        match &self.id {
            Some(id) => id.clone(),
            None => String::new(),
        }
    }

    /// The costume paths of all characters, in order.
    pub fn costume_paths(&self) -> (paths: Vec<String>)
        ensures
            paths@.len() == all_paths(self@.list).len(),
            forall|i: int| 0 <= i < paths@.len() ==> paths@[i]@ == all_paths(self@.list)[i],
    {
        let mut paths: Vec<String> = Vec::new();
        let mut c: usize = 0;
        while c < self.list.len()
            invariant
                c <= self.list.len(),
                paths@.len() == all_paths(self@.list.take(c as int)).len(),
                forall|i: int|
                    0 <= i < paths@.len() ==> paths@[i]@ == all_paths(self@.list.take(c as int))[i],
            decreases self.list.len() - c,
        {
            let character = &self.list[c];
            let ghost before = all_paths(self@.list.take(c as int));
            proof {
                assert(self@.list.take(c + 1).drop_last() =~= self@.list.take(c as int));
                assert(self@.list.take(c + 1).last() == character@);
            }
            let mut k: usize = 0;
            while k < character.costume.len()
                invariant
                    k <= character.costume.len(),
                    paths@.len() == before.len() + k,
                    forall|i: int| 0 <= i < before.len() ==> paths@[i]@ == before[i],
                    forall|i: int| 0 <= i < k ==> paths@[before.len() + i]@ == character@[i],
                decreases character.costume.len() - k,
            {
                paths.push(character.costume[k].path.clone());
                k += 1;
            }
            c += 1;
        }
        proof {
            assert(self@.list.take(self@.list.len() as int) =~= self@.list);
        }
        paths
    }
}

} // verus!
