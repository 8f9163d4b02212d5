//! Packing the nuspec and the compiled libraries into a nupkg archive.
use vstd::prelude::*;

use crate::buf::Buf;
use crate::cargo::{CargoBuildOutput, CargoBuildTarget};
use crate::nuspec::Nuspec;
use vstd::utf8::encode_utf8;

verus! {

/// The archive being written: the entries started so far, each with its name and
/// the bytes written into it, in order.
pub uninterp spec fn archive_entries(w: ArchiveWriter) -> Seq<(Seq<char>, Seq<u8>)>;

/// The bytes of the finished zip archive that holds `entries`, in order, each
/// deflated with the default options and the fixed default time stamp.
pub uninterp spec fn zip_bytes(entries: Seq<(Seq<char>, Seq<u8>)>) -> Seq<u8>;

#[verifier::external_type_specification]
#[verifier::external_body]
pub struct ExZipError(zip::result::ZipError);

/// A zip archive written into memory.
#[verifier::external_body]
pub struct ArchiveWriter {
    inner: zip::ZipWriter<std::io::Cursor<Vec<u8>>>,
}

/// Whether the writer still accepts work: a failed write closes it.
pub uninterp spec fn archive_open(w: ArchiveWriter) -> bool;

/// The number of bytes that `data` takes once deflated as the zip writer stores
/// an entry with the default options.
pub uninterp spec fn deflated_len(data: Seq<u8>) -> nat;

impl ArchiveWriter {
    /// Relies on zip::ZipWriter::new: a writer over an empty buffer holds no entry.
    #[verifier::external_body]
    fn new() -> (r: ArchiveWriter)
        ensures
            archive_entries(r) == Seq::<(Seq<char>, Seq<u8>)>::empty(),
            archive_open(r),
    {
        ArchiveWriter { inner: zip::ZipWriter::new(std::io::Cursor::new(Vec::new())) }
    }

    /// Relies on zip::ZipWriter::start_file: it closes the entry before, which
    /// fails only where that entry's deflated size passes the 32-bit limit, since
    /// writes into a memory buffer do not fail; on success a new, empty entry
    /// named `name` follows those already there.
    #[verifier::external_body]
    fn start_file(&mut self, name: &str) -> (r: Result<(), zip::result::ZipError>)
        requires
            archive_open(*old(self)),
        ensures
            archive_entries(*old(self)).len() == 0 || deflated_len(
                archive_entries(*old(self)).last().1,
            ) <= u32::MAX ==> r is Ok,
            r is Ok ==> archive_open(*final(self)) && archive_entries(*final(self))
                == archive_entries(*old(self)).push((name@, Seq::<u8>::empty())),
    {
        self.inner.start_file(name, zip::write::FileOptions::default())
    }

    /// Relies on std::io::Write::write_all for zip::ZipWriter: it fails only where
    /// the entry's bytes pass the 32-bit limit; on success `data` is appended to
    /// the entry that was started last.
    #[verifier::external_body]
    fn write_all(&mut self, data: &[u8]) -> (r: Result<(), zip::result::ZipError>)
        requires
            archive_open(*old(self)),
            archive_entries(*old(self)).len() > 0,
        ensures
            archive_entries(*old(self)).last().1.len() + data@.len() <= u32::MAX ==> r is Ok,
            r is Ok ==> {
                let before = archive_entries(*old(self));
                let last = before.last();
                &&& archive_open(*final(self))
                &&& archive_entries(*final(self)) == before.drop_last().push(
                    (last.0, last.1 + data@),
                )
            },
    {
        std::io::Write::write_all(&mut self.inner, data).map_err(zip::result::ZipError::Io)
    }

    /// Relies on zip::ZipWriter::finish: it closes the last entry, which fails only
    /// where its deflated size passes the 32-bit limit; on success the buffer
    /// holds the whole archive of the entries written.
    #[verifier::external_body]
    fn finish(self) -> (r: Result<Vec<u8>, zip::result::ZipError>)
        requires
            archive_open(self),
        ensures
            archive_entries(self).len() == 0 || deflated_len(archive_entries(self).last().1)
                <= u32::MAX ==> r is Ok,
            r is Ok ==> r.unwrap()@ == zip_bytes(archive_entries(self)),
    {
        let mut w = self.inner;
        w.finish().map(|c| c.into_inner())
    }
}

/// Whether an entry holding `data` fits a zip entry that is not marked as a
/// large file: its bytes and its deflated bytes each fit 32 bits.
pub open spec fn entry_fits(data: Seq<u8>) -> bool {
    data.len() <= u32::MAX && deflated_len(data) <= u32::MAX
}

/// The runtime a library in the package is built for.
#[derive(Debug, PartialEq, Eq, Clone, Copy)]
pub enum NugetTarget {
    /// The host that ran the build.
    Local,
}

impl From<CargoBuildTarget> for NugetTarget {
    fn from(value: CargoBuildTarget) -> (r: NugetTarget)
        ensures
            r == target_of(value),
    {
        match value {
            CargoBuildTarget::Local => NugetTarget::Local,
        }
    }
}

impl vstd::std_specs::convert::FromSpecImpl<CargoBuildTarget> for NugetTarget {
    open spec fn obeys_from_spec() -> bool {
        true
    }

    open spec fn from_spec(v: CargoBuildTarget) -> NugetTarget {
        target_of(v)
    }
}

/// The package runtime for a build target.
pub open spec fn target_of(t: CargoBuildTarget) -> NugetTarget {
    match t {
        CargoBuildTarget::Local => NugetTarget::Local,
    }
}

/// The runtime identifier of a target, which names its folder in the package.
pub open spec fn runtime_id(t: NugetTarget) -> Seq<char> {
    match t {
        NugetTarget::Local => "local"@,
    }
}

impl NugetTarget {
    /// The runtime identifier of the target.
    pub fn runtime_id(&self) -> (r: &'static str)
        ensures
            r@ == runtime_id(*self),
    {
        match self {
            NugetTarget::Local => "local",
        }
    }
}

/// A compiled library to put in the package, and the target it was built for.
pub struct NugetLib {
    pub target: NugetTarget,
    pub path: String,
}

/// What a package is packed from: its id and version, the nuspec markup, and
/// one library for each target.
pub struct NugetPackArgs {
    pub id: String,
    pub version: String,
    pub spec: String,
    pub cargo_libs: Vec<NugetLib>,
}

impl NugetPackArgs {
    /// Each target has one library at most.
    pub open spec fn wf(&self) -> bool {
        forall|i: int, j: int|
            0 <= i < j < self.cargo_libs@.len() ==> #[trigger] self.cargo_libs@[i].target
                != #[trigger] self.cargo_libs@[j].target
    }

    /// The pack arguments for a nuspec and the output of the build it describes.
    pub fn from_build(nuspec: &Nuspec, build: &CargoBuildOutput) -> (r: NugetPackArgs)
        ensures
            r.id@ == nuspec.id@,
            r.version@ == nuspec.version@,
            r.spec@ == nuspec.xml@,
            r.cargo_libs@.len() == 1,
            r.cargo_libs@[0].target == target_of(build.target),
            r.cargo_libs@[0].path@ == build.path@,
            r.wf(),
    {
        let mut libs: Vec<NugetLib> = Vec::new();
        libs.push(NugetLib { target: NugetTarget::from(build.target), path: build.path.clone() });
        NugetPackArgs {
            id: nuspec.id.clone(),
            version: nuspec.version.clone(),
            spec: nuspec.xml.clone(),
            cargo_libs: libs,
        }
    }
}

/// A packed package: the file name it is saved under and the archive bytes.
pub struct Nupkg {
    pub name: String,
    pub buf: Buf,
}

/// Why a package could not be packed.
#[derive(Debug, PartialEq, Eq, Clone, Copy)]
pub enum PackError {
    /// A compiled library could not be read.
    BuildArtifactUnreadable,
    /// Writing or compressing the archive failed.
    ArchiveWrite,
}

/// The last segment of a path: what follows its last `/` or `\`.
pub open spec fn file_name(path: Seq<char>) -> Seq<char>
    decreases path.len(),
{
    if path.len() == 0 {
        Seq::empty()
    } else if path.last() == '/' || path.last() == '\\' {
        Seq::empty()
    } else {
        file_name(path.drop_last()).push(path.last())
    }
}

/// The name of the nuspec entry of a package.
pub open spec fn nuspec_entry_name(id: Seq<char>) -> Seq<char> {
    id + ".nuspec"@
}

/// The name of the entry of a library built for `target` from `path`.
pub open spec fn lib_entry_name(target: NugetTarget, path: Seq<char>) -> Seq<char> {
    "runtimes/"@ + runtime_id(target) + "/native/"@ + file_name(path)
}

/// The file name of a package.
pub open spec fn nupkg_name(id: Seq<char>, version: Seq<char>) -> Seq<char> {
    id + "-"@ + version + ".nupkg"@
}

/// The entries of a package: the nuspec first, then each library in order.
pub open spec fn package_entries(
    id: Seq<char>,
    spec: Seq<char>,
    libs: Seq<NugetLib>,
    contents: Seq<Seq<u8>>,
) -> Seq<(Seq<char>, Seq<u8>)> {
    seq![(nuspec_entry_name(id), encode_utf8(spec))] + Seq::new(
        libs.len(),
        |i: int| (lib_entry_name(libs[i].target, libs[i].path@), contents[i]),
    )
}

/// The last segment of `path`.
pub fn path_file_name(path: &str) -> (r: String)
    ensures
        r@ == file_name(path@),
{
    let n = path.unicode_len();
    let mut start: usize = n;
    let mut at_separator = false;
    assert(path@.take(n as int) =~= path@);
    assert(path@.subrange(n as int, n as int) =~= Seq::<char>::empty());
    while start > 0 && !at_separator
        invariant
            n == path@.len(),
            start <= n,
            file_name(path@) == file_name(path@.take(start as int)) + path@.subrange(
                start as int,
                n as int,
            ),
            at_separator ==> start > 0 && (path@[start - 1] == '/' || path@[start - 1] == '\\'),
        decreases start + (if at_separator { 0int } else { 1int }),
    {
        let c = path.get_char(start - 1);
        if c == '/' || c == '\\' {
            at_separator = true;
        } else {
            proof {
                let t = path@.take(start as int);
                assert(t.drop_last() =~= path@.take(start - 1));
                assert(path@.subrange(start - 1, n as int) =~= seq![c] + path@.subrange(
                    start as int,
                    n as int,
                ));
                assert(file_name(t) == file_name(t.drop_last()).push(c));
            }
            start = start - 1;
        }
    }
    proof {
        let t = path@.take(start as int);
        if start == 0 {
            assert(t =~= Seq::<char>::empty());
        } else {
            assert(t.last() == path@[start - 1]);
        }
        assert(file_name(t) =~= Seq::<char>::empty());
    }
    let r = path.substring_char(start, n);
    let out = String::from_str(r);
    assert(out@ =~= file_name(path@));
    out
}

/// The file name of the package with id `id` and version `version`.
pub fn package_name(id: &str, version: &str) -> (r: String)
    ensures
        r@ == nupkg_name(id@, version@),
{
    let mut r = String::from_str(id);
    r.append("-");
    r.append(version);
    r.append(".nupkg");
    r
}

/// Packs the nuspec and the libraries of `args` into a zip archive; `contents`
/// holds the bytes of each library, in the order of `args.cargo_libs`.
///
/// On success the archive holds exactly the entries of `package_entries`.
pub fn pack(args: &NugetPackArgs, contents: &Vec<Vec<u8>>) -> (r: Result<Nupkg, PackError>)
    requires
        contents@.len() == args.cargo_libs@.len(),
    ensures
        r is Err ==> r == Err::<Nupkg, PackError>(PackError::ArchiveWrite),
        entry_fits(encode_utf8(args.spec@)) && (forall|i: int|
            0 <= i < contents@.len() ==> entry_fits(#[trigger] contents@[i]@)) ==> r is Ok,
        r is Ok ==> {
            &&& r.unwrap().name@ == nupkg_name(args.id@, args.version@)
            &&& r.unwrap().buf@ == zip_bytes(
                package_entries(
                    args.id@,
                    args.spec@,
                    args.cargo_libs@,
                    Seq::new(contents@.len(), |i: int| contents@[i]@),
                ),
            )
        },
{
    let ghost libs = args.cargo_libs@;
    let ghost bytes = Seq::new(contents@.len(), |i: int| contents@[i]@);
    let ghost all = package_entries(args.id@, args.spec@, libs, bytes);
    let ghost fits = entry_fits(encode_utf8(args.spec@)) && (forall|i: int|
        0 <= i < contents@.len() ==> entry_fits(#[trigger] contents@[i]@));
    let mut w = ArchiveWriter::new();
    let mut name = String::from_str(args.id.as_str());
    name.append(".nuspec");
    match w.start_file(name.as_str()) {
        Ok(()) => {},
        Err(_) => return Err(PackError::ArchiveWrite),
    }
    match w.write_all(args.spec.as_str().as_bytes()) {
        Ok(()) => {},
        Err(_) => return Err(PackError::ArchiveWrite),
    }
    assert(archive_entries(w) =~= all.take(1));
    assert(all[0].1 == encode_utf8(args.spec@));
    let n = args.cargo_libs.len();
    let mut i: usize = 0;
    while i < n
        invariant
            n == libs.len(),
            libs == args.cargo_libs@,
            contents@.len() == n,
            bytes == Seq::new(contents@.len(), |i: int| contents@[i]@),
            all == package_entries(args.id@, args.spec@, libs, bytes),
            i <= n,
            archive_entries(w) == all.take(i + 1),
            archive_open(w),
            fits == (entry_fits(encode_utf8(args.spec@)) && (forall|i: int|
                0 <= i < contents@.len() ==> entry_fits(#[trigger] contents@[i]@))),
            all[0].1 == encode_utf8(args.spec@),
        decreases n - i,
    {
        let lib = &args.cargo_libs[i];
        let mut entry = String::from_str("runtimes/");
        entry.append(lib.target.runtime_id());
        entry.append("/native/");
        entry.append(path_file_name(lib.path.as_str()).as_str());
        proof {
            assert(all.take(i + 1).last() == all[i as int]);
            if fits && i > 0 {
                assert(all[i as int].1 == contents@[i - 1]@);
                assert(entry_fits(contents@[i - 1]@));
            }
        }
        match w.start_file(entry.as_str()) {
            Ok(()) => {},
            Err(_) => return Err(PackError::ArchiveWrite),
        }
        proof {
            if fits && i > 0 {
                assert(all[i as int].1 == contents@[i - 1]@);
                assert(entry_fits(contents@[i - 1]@));
            }
            assert(all.take(i + 1).last() == all[i as int]);
        }
        match w.write_all(contents[i].as_slice()) {
            Ok(()) => {},
            Err(_) => return Err(PackError::ArchiveWrite),
        }
        assert(archive_entries(w) =~= all.take(i + 2));
        i = i + 1;
    }
    assert(all.take(n + 1) =~= all);
    proof {
        if fits && n > 0 {
            assert(all[n as int].1 == contents@[n - 1]@);
            assert(entry_fits(contents@[n - 1]@));
        }
    }
    let buf = match w.finish() {
        Ok(b) => b,
        Err(_) => return Err(PackError::ArchiveWrite),
    };
    Ok(Nupkg { name: package_name(args.id.as_str(), args.version.as_str()), buf: Buf::from(buf) })
}

/// The diagnostic rendering of a packed package: it names the package file and
/// shows nothing of the archive bytes.
pub open spec fn nupkg_debug_text(name: Seq<char>, bytes: Seq<u8>) -> Seq<char> {
    "Nupkg { name: "@ + name + ", buf: Buf }"@
}

impl Nupkg {
    /// The diagnostic rendering of the package; the archive bytes are left out.
    pub fn debug_string(&self) -> (r: String)
        ensures
            r@ == nupkg_debug_text(self.name@, self.buf@),
    {
        let mut r = String::from_str("Nupkg { name: ");
        r.append(self.name.as_str());
        r.append(", buf: Buf }");
        r
    }
}

/// Two packages with the same file name render alike in diagnostics, whatever
/// archive bytes they hold.
pub proof fn lemma_nupkg_debug_redacts(name: Seq<char>, a: Seq<u8>, b: Seq<u8>)
    ensures
        nupkg_debug_text(name, a) == nupkg_debug_text(name, b),
{
}

/// A package holds exactly one nuspec entry, first, with the nuspec text, and
/// after it one entry for each library, in order, with that library's bytes and a
/// name built from its target; where each target has one library, each target
/// has exactly one entry; and where the id holds no `/`, no library entry shares
/// the name of the nuspec entry.
pub proof fn lemma_archive_complete(
    id: Seq<char>,
    spec: Seq<char>,
    libs: Seq<NugetLib>,
    contents: Seq<Seq<u8>>,
)
    requires
        contents.len() == libs.len(),
        forall|i: int, j: int|
            0 <= i < j < libs.len() ==> #[trigger] libs[i].target != #[trigger] libs[j].target,
    ensures
        ({
            let e = package_entries(id, spec, libs, contents);
            &&& e.len() == libs.len() + 1
            &&& e[0] == (nuspec_entry_name(id), encode_utf8(spec))
            &&& forall|i: int|
                0 <= i < libs.len() ==> #[trigger] e[i + 1] == (
                    lib_entry_name(libs[i].target, libs[i].path@),
                    contents[i],
                )
            &&& forall|i: int, j: int|
                0 <= i < libs.len() && 0 <= j < libs.len() && #[trigger] libs[i].target
                    == #[trigger] libs[j].target ==> i == j
            &&& (forall|k: int| 0 <= k < id.len() ==> id[k] != '/') ==> forall|i: int|
                0 <= i < libs.len() ==> #[trigger] e[i + 1].0 != e[0].0
        }),
{
    reveal_strlit("runtimes/");
    reveal_strlit(".nuspec");
    let e = package_entries(id, spec, libs, contents);
    assert forall|i: int| 0 <= i < libs.len() implies #[trigger] e[i + 1] == (
        lib_entry_name(libs[i].target, libs[i].path@),
        contents[i],
    ) by {}
    if forall|k: int| 0 <= k < id.len() ==> id[k] != '/' {
        assert forall|i: int| 0 <= i < libs.len() implies #[trigger] e[i + 1].0 != e[0].0 by {
            let ln = lib_entry_name(libs[i].target, libs[i].path@);
            let nn = nuspec_entry_name(id);
            let ext = ".nuspec"@;
            assert(ext =~= seq!['.', 'n', 'u', 's', 'p', 'e', 'c']);
            assert(e[i + 1].0 == ln);
            assert(e[0].0 == nn);
            assert(ln[8] == '/');
            assert(ln.len() >= 9);
            if ln == nn {
                if 8 < id.len() {
                    assert(nn[8] == id[8]);
                } else {
                    assert(nn[8] == ext[8 - id.len()]);
                }
            }
        }
    }
    assert forall|i: int, j: int|
        0 <= i < libs.len() && 0 <= j < libs.len() && #[trigger] libs[i].target
            == #[trigger] libs[j].target implies i == j by {
        if i < j {
            assert(libs[i].target != libs[j].target);
        } else if j < i {
            assert(libs[j].target != libs[i].target);
        }
    }
}

} // verus!
