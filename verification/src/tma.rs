//! The TMA package: its metadata and what an inspection of it finds.

use crate::paths::{join, joined};
use crate::text::views;
use vstd::prelude::*;

verus! {

#[derive(Debug, Clone, PartialEq, Eq)]
pub struct TmaPackageMetadata {
    pub format_version: u32,
    pub model_id: String,
    pub architecture: ModelArchitecture,
    pub qwen_config: Option<QwenConfig>,
    pub source: SourceFormat,
    pub source_path: String,
    pub tokenizer_path: Option<String>,
    pub tensors: Vec<TensorDescriptor>,
    pub status: PackageStatus,
}

#[derive(Debug, Clone, Copy, PartialEq, Eq, Structural)]
pub enum PackageStatus {
    MetadataOnly,
    Converted,
}

#[derive(Debug, Clone, Copy, PartialEq, Eq, Structural)]
pub enum SourceFormat {
    HuggingFace,
    Gguf,
}

#[derive(Debug, Clone, Copy, PartialEq, Eq, Structural)]
pub enum ModelArchitecture {
    Qwen25,
}

#[derive(Debug, Clone, Copy, PartialEq, Eq, Structural)]
pub struct QwenConfig {
    pub hidden_size: u64,
    pub intermediate_size: u64,
    pub num_hidden_layers: u64,
    pub num_attention_heads: u64,
    pub num_key_value_heads: u64,
    pub head_dim: u64,
    pub vocab_size: u64,
    pub max_position_embeddings: u64,
    pub rope_theta: u64,
}

#[derive(Debug, Clone, PartialEq, Eq)]
pub struct TensorDescriptor {
    pub name: String,
    pub dtype: TensorDType,
    pub shape: Vec<u64>,
    pub file: String,
    pub byte_offset: u64,
    pub byte_len: u64,
}

#[derive(Debug, Clone, Copy, PartialEq, Eq, Structural)]
pub enum TensorDType {
    F16,
    F32,
    Q8Tma,
    Q4Tma,
}

#[derive(Debug, Clone, PartialEq, Eq)]
pub struct TmaPackageInspection {
    pub package_dir: String,
    pub metadata: TmaPackageMetadata,
    pub tokenizer_exists: bool,
    pub tensor_count: usize,
    pub missing_tensors: Vec<String>,
    pub total_tensor_bytes: u64,
}

impl TmaPackageMetadata {
    /// The metadata of a package that holds no tensors yet.
    pub fn scaffold(
        model_id: String,
        architecture: ModelArchitecture,
        source: SourceFormat,
        source_path: String,
    ) -> (metadata: Self)
        ensures
            metadata.format_version == 1,
            metadata.model_id@ == model_id@,
            metadata.architecture == architecture,
            metadata.qwen_config == None::<QwenConfig>,
            metadata.source == source,
            metadata.source_path@ == source_path@,
            metadata.tokenizer_path == None::<String>,
            metadata.tensors@.len() == 0,
            metadata.status == PackageStatus::MetadataOnly,
    {
        TmaPackageMetadata {
            format_version: 1,
            model_id,
            architecture,
            qwen_config: None,
            source,
            source_path,
            tokenizer_path: None,
            tensors: Vec::new(),
            status: PackageStatus::MetadataOnly,
        }
    }

    /// Where the tokenizer lies, if the package names one.
    pub fn tokenizer_file(&self, package_dir: &str) -> (path: Option<String>)
        ensures
            match (path, self.tokenizer_path) {
                (Some(path), Some(name)) => path@ == joined(package_dir@, name@),
                (None, None) => true,
                _ => false,
            },
    {
        match &self.tokenizer_path {
            Some(name) => Some(join(package_dir, name.as_str())),
            None => None,
        }
    }

    /// Where each tensor lies.
    pub fn tensor_files(&self, package_dir: &str) -> (paths: Vec<String>)
        ensures
            paths@.len() == self.tensors@.len(),
            forall|i: int|
                0 <= i < paths@.len() ==> (#[trigger] paths@[i])@ == joined(
                    package_dir@,
                    self.tensors@[i].file@,
                ),
    {
        let mut paths: Vec<String> = Vec::new();
        let mut index: usize = 0;
        while index < self.tensors.len()
            invariant
                index <= self.tensors@.len(),
                paths@.len() == index,
                forall|i: int|
                    0 <= i < index ==> (#[trigger] paths@[i])@ == joined(
                        package_dir@,
                        self.tensors@[i].file@,
                    ),
            decreases self.tensors@.len() - index,
        {
            paths.push(join(package_dir, self.tensors[index].file.as_str()));
            index = index + 1;
        }
        paths
    }
}

pub fn metadata_path(package_dir: &str) -> (path: String)
    ensures
        path@ == joined(package_dir@, "metadata.json"@),
{
    join(package_dir, "metadata.json")
}

/// The bytes of the files that are there.
pub open spec fn total_bytes(sizes: Seq<Option<u64>>) -> nat
    decreases sizes.len(),
{
    if sizes.len() == 0 {
        0
    } else {
        total_bytes(sizes.drop_last()) + match sizes.last() {
            Some(size) => size as nat,
            None => 0,
        }
    }
}

/// The files of the tensors that are not there, in order.
pub open spec fn missing_files(tensors: Seq<TensorDescriptor>, sizes: Seq<Option<u64>>) -> Seq<
    Seq<char>,
>
    decreases tensors.len(),
{
    if tensors.len() == 0 {
        Seq::empty()
    } else {
        let before = missing_files(tensors.drop_last(), sizes);
        if sizes[tensors.len() - 1] is Some {
            before
        } else {
            before.push(tensors.last().file@)
        }
    }
}

proof fn lemma_total_bytes_grow(sizes: Seq<Option<u64>>, count: nat)
    requires
        count <= sizes.len(),
    ensures
        total_bytes(sizes.take(count as int)) <= total_bytes(sizes),
    decreases sizes.len(),
{
    if count == sizes.len() {
        assert(sizes.take(count as int) =~= sizes);
    } else {
        lemma_total_bytes_grow(sizes.drop_last(), count);
        assert(sizes.drop_last().take(count as int) =~= sizes.take(count as int));
    }
}

/// What is known of a package. `sizes` gives for each tensor the length of its
/// file, or `None` where there is no regular file.
pub fn inspect_package(
    package_dir: &str,
    metadata: TmaPackageMetadata,
    tokenizer_is_file: bool,
    sizes: &Vec<Option<u64>>,
) -> (inspection: TmaPackageInspection)
    requires
        sizes@.len() == metadata.tensors@.len(),
        total_bytes(sizes@) <= u64::MAX,
    ensures
        inspection.package_dir@ == package_dir@,
        inspection.metadata == metadata,
        inspection.tokenizer_exists == (metadata.tokenizer_path is Some && tokenizer_is_file),
        inspection.tensor_count == metadata.tensors@.len(),
        views(inspection.missing_tensors@) == missing_files(metadata.tensors@, sizes@),
        inspection.total_tensor_bytes == total_bytes(sizes@),
{
    let mut missing_tensors: Vec<String> = Vec::new();
    let mut total_tensor_bytes: u64 = 0;
    let mut index: usize = 0;
    assert(metadata.tensors@.take(0) =~= Seq::<TensorDescriptor>::empty());
    assert(sizes@.take(0) =~= Seq::<Option<u64>>::empty());
    assert(views(missing_tensors@) =~= missing_files(metadata.tensors@.take(0), sizes@));
    while index < metadata.tensors.len()
        invariant
            index <= metadata.tensors@.len(),
            sizes@.len() == metadata.tensors@.len(),
            total_bytes(sizes@) <= u64::MAX,
            total_tensor_bytes == total_bytes(sizes@.take(index as int)),
            views(missing_tensors@) == missing_files(
                metadata.tensors@.take(index as int),
                sizes@,
            ),
        decreases metadata.tensors@.len() - index,
    {
        let ghost next = index + 1;
        proof {
            assert(sizes@.take(next).drop_last() =~= sizes@.take(index as int));
            assert(metadata.tensors@.take(next).drop_last() =~= metadata.tensors@.take(
                index as int,
            ));
            lemma_total_bytes_grow(sizes@, next as nat);
        }
        match sizes[index] {
            Some(size) => {
                total_tensor_bytes = total_tensor_bytes + size;
            },
            None => {
                let ghost before = missing_tensors@;
                missing_tensors.push(metadata.tensors[index].file.clone());
                assert(views(missing_tensors@) =~= views(before).push(
                    metadata.tensors@[index as int].file@,
                ));
            },
        }
        index = index + 1;
    }
    assert(sizes@.take(index as int) =~= sizes@);
    assert(metadata.tensors@.take(index as int) =~= metadata.tensors@);
    let tokenizer_exists: bool = match &metadata.tokenizer_path {
        Some(_) => tokenizer_is_file,
        None => false,
    };
    TmaPackageInspection {
        package_dir: package_dir.to_owned(),
        tensor_count: metadata.tensors.len(),
        metadata,
        tokenizer_exists,
        missing_tensors,
        total_tensor_bytes,
    }
}

/// No file is missing just where every tensor has its file.
pub proof fn nothing_missing_when_all_found(tensors: Seq<TensorDescriptor>, sizes: Seq<Option<u64>>)
    requires
        tensors.len() == sizes.len(),
    ensures
        missing_files(tensors, sizes).len() == 0 <==> forall|i: int|
            0 <= i < sizes.len() ==> (#[trigger] sizes[i]) is Some,
{
    lemma_missing(tensors, sizes);
}

proof fn lemma_missing(tensors: Seq<TensorDescriptor>, sizes: Seq<Option<u64>>)
    requires
        tensors.len() <= sizes.len(),
    ensures
        missing_files(tensors, sizes).len() == 0 <==> forall|i: int|
            0 <= i < tensors.len() ==> (#[trigger] sizes[i]) is Some,
    decreases tensors.len(),
{
    if tensors.len() > 0 {
        lemma_missing(tensors.drop_last(), sizes);
    }
}

/// The bytes of a package are those of the files that were found, each counted
/// once: what two parts of the list hold, the whole list holds together.
pub proof fn bytes_add_up(earlier: Seq<Option<u64>>, later: Seq<Option<u64>>)
    ensures
        total_bytes(earlier + later) == total_bytes(earlier) + total_bytes(later),
        forall|size: u64| #[trigger] total_bytes(seq![Some(size)]) == size,
        total_bytes(seq![None::<u64>]) == 0,
    decreases later.len(),
{
    assert forall|size: u64| #[trigger] total_bytes(seq![Some(size)]) == size by {
        reveal_with_fuel(total_bytes, 2);
        assert(seq![Some(size)].drop_last() =~= Seq::<Option<u64>>::empty());
    }
    reveal_with_fuel(total_bytes, 2);
    assert(seq![None::<u64>].drop_last() =~= Seq::<Option<u64>>::empty());
    if later.len() == 0 {
        assert(earlier + later =~= earlier);
    } else {
        bytes_add_up(earlier, later.drop_last());
        assert((earlier + later).drop_last() =~= earlier + later.drop_last());
    }
}

/// A file is missing just where a tensor stands in it and it was not found. The
/// missing files are told in the order of their tensors.
pub proof fn missing_files_were_not_found(tensors: Seq<TensorDescriptor>, sizes: Seq<Option<u64>>)
    requires
        tensors.len() <= sizes.len(),
    ensures
        forall|file: Seq<char>| #[trigger]
            missing_files(tensors, sizes).contains(file) <==> exists|i: int|
                0 <= i < tensors.len() && (#[trigger] tensors[i]).file@ == file && sizes[i] is None,
    decreases tensors.len(),
{
    if tensors.len() > 0 {
        let fewer = tensors.drop_last();
        let last = tensors.len() - 1;
        missing_files_were_not_found(fewer, sizes);
        let before = missing_files(fewer, sizes);
        let after = missing_files(tensors, sizes);
        assert forall|file: Seq<char>| #[trigger] after.contains(file) <==> exists|i: int|
            0 <= i < tensors.len() && (#[trigger] tensors[i]).file@ == file && sizes[i] is None by {
            if after.contains(file) {
                if before.contains(file) {
                    let i = choose|i: int|
                        0 <= i < fewer.len() && (#[trigger] fewer[i]).file@ == file
                            && sizes[i] is None;
                    assert(tensors[i].file@ == file);
                } else {
                    let at = choose|k: int| 0 <= k < after.len() && after[k] == file;
                    if at < before.len() {
                        assert(before[at] == file);
                    }
                    assert(tensors[last].file@ == file && sizes[last] is None);
                }
            }
            if exists|i: int|
                0 <= i < tensors.len() && (#[trigger] tensors[i]).file@ == file && sizes[i] is None {
                let i = choose|i: int|
                    0 <= i < tensors.len() && (#[trigger] tensors[i]).file@ == file
                        && sizes[i] is None;
                if i < last {
                    assert(fewer[i].file@ == file);
                    assert(before.contains(file));
                    let at = choose|k: int| 0 <= k < before.len() && before[k] == file;
                    assert(after[at] == file);
                } else {
                    assert(after[after.len() - 1] == file);
                }
            }
        }
    }
}

} // verus!
