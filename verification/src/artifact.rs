//! The artifact of a compilation: the code to deploy, the runtime code, and where
//! the contract came from.

use crate::error::{CodegenErrorView};
use crate::hex::{
    address_hex, hex_bytes, is_code_text, is_lower_hex, is_lower_hex_char, lemma_address_hex,
    lemma_code_text_concat, lemma_hex_is_code_text, lemma_lowercase_code_text, lowercase,
    max_address,
};
use crate::model::overflow;
use vstd::prelude::*;

verus! {

/// A source file.
#[derive(Debug, PartialEq, Eq)]
pub struct FileSource {
    /// The number that identifies the file.
    pub id: u128,
    /// The path of the file.
    pub path: String,
    /// The text of the file, where it has been read.
    pub source: Option<String>,
    /// When the file was last read, in seconds and nanoseconds since the Unix epoch.
    pub access: Option<(u64, u32)>,
    /// The files that this file imports, where they have been resolved.
    pub dependencies: Option<Vec<FileSource>>,
}

/// The view of a source file.
pub struct FileSourceView {
    pub id: u128,
    pub path: Seq<char>,
    pub source: Option<Seq<char>>,
    pub access: Option<(u64, u32)>,
    pub dependencies: Option<Seq<FileSourceView>>,
}

/// The view of a text that may be absent.
pub open spec fn optional_text(s: Option<String>) -> Option<Seq<char>> {
    match s {
        Some(t) => Some(t@),
        None => None,
    }
}

/// The views of a list of files.
pub open spec fn files_view(files: Seq<FileSource>) -> Seq<FileSourceView>
    decreases files,
{
    if files.len() == 0 {
        Seq::empty()
    } else {
        files_view(files.drop_last()).push(files.last()@)
    }
}

impl View for FileSource {
    type V = FileSourceView;

    open spec fn view(&self) -> FileSourceView
        decreases self,
    {
        FileSourceView {
            id: self.id,
            path: self.path@,
            source: optional_text(self.source),
            access: self.access,
            dependencies: match self.dependencies {
                Some(files) => Some(files_view(files@)),
                None => None,
            },
        }
    }
}

/// The view of the file that stands for no file.
pub open spec fn no_file() -> FileSourceView {
    FileSourceView { id: 0, path: Seq::empty(), source: None, access: None, dependencies: None }
}

/// A copy of a text that may be absent.
pub fn duplicate_optional(s: &Option<String>) -> (r: Option<String>)
    ensures
        optional_text(r) == optional_text(*s),
{
    match s {
        Some(t) => Some(t.clone()),
        None => None,
    }
}

impl FileSource {
    /// No file: the number 0, an empty path, no text, no time and no imports.
    pub fn empty() -> (r: FileSource)
        ensures
            r@ == no_file(),
    {
        FileSource { id: 0, path: String::new(), source: None, access: None, dependencies: None }
    }

    /// Copies of the files of a list.
    fn duplicate_all(files: &Vec<FileSource>) -> (r: Vec<FileSource>)
        ensures
            files_view(r@) == files_view(files@),
        decreases files,
    {
        let mut copies: Vec<FileSource> = Vec::new();
        let mut i: usize = 0;
        assert(files@.take(0) =~= Seq::<FileSource>::empty());
        while i < files.len()
            invariant
                i <= files.len(),
                files_view(copies@) == files_view(files@.take(i as int)),
            decreases files.len() - i,
        {
            let ghost before = copies@;
            let copy = files[i].duplicate();
            copies.push(copy);
            proof {
                assert(copies@.drop_last() =~= before);
                assert(files@.take(i as int + 1).drop_last() =~= files@.take(i as int));
            }
            i += 1;
        }
        assert(files@.take(files.len() as int) =~= files@);
        copies
    }

    /// A copy of this file.
    pub fn duplicate(&self) -> (r: FileSource)
        ensures
            r@ == self@,
        decreases self,
    {
        FileSource {
            id: self.id,
            path: self.path.clone(),
            source: duplicate_optional(&self.source),
            access: self.access,
            dependencies: match &self.dependencies {
                Some(files) => Some(FileSource::duplicate_all(files)),
                None => None,
            },
        }
    }
}

impl Clone for FileSource {
    /// A copy of this file.
    fn clone(&self) -> (r: FileSource)
        ensures
            r@ == self@,
    {
        self.duplicate()
    }
}

/// The product of a compilation.
#[derive(Debug, Clone, PartialEq, Eq)]
pub struct Artifact {
    /// The file that the contract was read from.
    pub file: FileSource,
    /// The code that deploys the contract, in lower-case hexadecimal.
    pub bytecode: String,
    /// The code of the deployed contract, in lower-case hexadecimal.
    pub runtime: String,
    /// The ABI of the contract as JSON text, where it has been generated.
    pub abi: Option<String>,
}

/// The view of an artifact.
pub struct ArtifactView {
    pub file: FileSourceView,
    pub bytecode: Seq<char>,
    pub runtime: Seq<char>,
    pub abi: Option<Seq<char>>,
}

impl View for Artifact {
    type V = ArtifactView;

    open spec fn view(&self) -> ArtifactView {
        ArtifactView {
            file: self.file@,
            bytecode: self.bytecode@,
            runtime: self.runtime@,
            abi: optional_text(self.abi),
        }
    }
}

impl Artifact {
    /// An artifact that holds nothing yet.
    pub fn empty() -> (r: Artifact)
        ensures
            r@ == (ArtifactView {
                file: no_file(),
                bytecode: Seq::empty(),
                runtime: Seq::empty(),
                abi: None,
            }),
    {
        Artifact {
            file: FileSource::empty(),
            bytecode: String::new(),
            runtime: String::new(),
            abi: None,
        }
    }

    /// A copy of this artifact.
    pub fn duplicate(&self) -> (r: Artifact)
        ensures
            r@ == self@,
    {
        Artifact {
            file: self.file.duplicate(),
            bytecode: self.bytecode.clone(),
            runtime: self.runtime.clone(),
            abi: duplicate_optional(&self.abi),
        }
    }
}

/// The view of an artifact that may be absent.
pub open spec fn optional_artifact(a: Option<Artifact>) -> Option<ArtifactView> {
    match a {
        Some(x) => Some(x@),
        None => None,
    }
}

/// The number of bytes of the code that copies the contract into memory and returns
/// it.
pub open spec fn bootstrap_len() -> nat {
    13
}

/// The code that copies a contract of `main_len` bytes, found `offset` bytes into
/// the deployed code, into memory and returns it: `PUSH2 size DUP1 PUSH2 offset
/// PUSH1 0 CODECOPY PUSH1 0 RETURN`.
pub open spec fn bootstrap(main_len: nat, offset: nat) -> Seq<char> {
    seq!['6', '1'] + address_hex(main_len) + seq!['8', '0', '6', '1'] + address_hex(offset)
        + seq!['6', '0', '0', '0', '3', '9', '6', '0', '0', '0', 'f', '3']
}

/// The texts of the encoded arguments, one after the other.
pub open spec fn hex_concat(args: Seq<Seq<u8>>) -> Seq<char>
    decreases args.len(),
{
    if args.len() == 0 {
        Seq::empty()
    } else {
        hex_concat(args.drop_last()) + hex_bytes(args.last())
    }
}

/// The code that deploys a contract: the constructor, the bootstrap code, the
/// runtime code and the encoded constructor arguments, in lower case. Fails where the
/// size of the runtime code or its offset does not fit two bytes.
pub open spec fn deployment(main: Seq<char>, constructor: Seq<char>, args: Seq<char>) -> Result<
    Seq<char>,
    CodegenErrorView,
> {
    if main.len() / 2 > max_address() || bootstrap_len() + constructor.len() / 2 > max_address() {
        Err(overflow())
    } else {
        Ok(
            lowercase(
                constructor + bootstrap(main.len() / 2, bootstrap_len() + constructor.len() / 2)
                    + main + args,
            ),
        )
    }
}

/// The artifact after the code has been put together: the deployment code, the
/// runtime code in lower case and the file; the ABI of the artifact before stays.
pub open spec fn churned(
    before: Option<ArtifactView>,
    file: FileSourceView,
    main: Seq<char>,
    constructor: Seq<char>,
    args: Seq<char>,
) -> Result<ArtifactView, CodegenErrorView> {
    match deployment(main, constructor, args) {
        Ok(code) => Ok(
            ArtifactView {
                file,
                bytecode: code,
                runtime: lowercase(main),
                abi: match before {
                    Some(a) => a.abi,
                    None => None,
                },
            },
        ),
        Err(e) => Err(e),
    }
}

/// The code to deploy is as long as its parts, the bootstrap code taking 13 bytes, and
/// holds no upper-case digit.
pub proof fn law_deployment(main: Seq<char>, constructor: Seq<char>, args: Seq<char>)
    requires
        is_code_text(main),
        is_code_text(constructor),
        is_lower_hex(args),
        deployment(main, constructor, args) is Ok,
    ensures
        deployment(main, constructor, args)->Ok_0.len() == constructor.len() + 2 * bootstrap_len()
            + main.len() + args.len(),
        forall|i: int|
            0 <= i < deployment(main, constructor, args)->Ok_0.len() ==> (is_lower_hex_char(
                #[trigger] deployment(main, constructor, args)->Ok_0[i],
            ) || deployment(main, constructor, args)->Ok_0[i] == 'x'),
{
    let size = main.len() / 2;
    let offset = bootstrap_len() + constructor.len() / 2;
    let boot = bootstrap(size, offset);
    lemma_address_hex(size);
    lemma_address_hex(offset);
    assert(boot.len() == 26);
    assert(is_code_text(boot)) by {
        assert forall|i: int| 0 <= i < boot.len() implies (crate::hex::is_hex_char(
            #[trigger] boot[i],
        ) || boot[i] == 'x') by {
            if 2 <= i < 6 {
                assert(boot[i] == address_hex(size)[i - 2]);
                assert(is_lower_hex_char(address_hex(size)[i - 2]));
            } else if 10 <= i < 14 {
                assert(boot[i] == address_hex(offset)[i - 10]);
                assert(is_lower_hex_char(address_hex(offset)[i - 10]));
            }
        }
    }
    lemma_hex_is_code_text(args);
    lemma_code_text_concat(constructor, boot);
    lemma_code_text_concat(constructor + boot, main);
    lemma_code_text_concat(constructor + boot + main, args);
    lemma_lowercase_code_text(constructor + boot + main + args);
}

} // verus!
