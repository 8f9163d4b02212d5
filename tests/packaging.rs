use std::io::Read;

use cargo_nuget::cargo::{
    config_from_fields, parse_toml, CargoBuildOutput, CargoBuildTarget, CargoConfig,
    ManifestError, ManifestField,
};
use cargo_nuget::markup::{escape_attr, escape_text};
use cargo_nuget::nuspec::{
    nuspec, parse_nuspec, NugetDependencies, NugetDependency, NugetSpecArgs, NuspecError,
};
use cargo_nuget::pack::{pack, package_name, path_file_name, NugetPackArgs, NugetTarget, PackError};
use cargo_nuget::pipeline::{failure_message, first_stage, next_step, Stage, Step};
use cargo_nuget::save::{save_path, NugetSaveArgs};
use cargo_nuget::Buf;

fn config(name: &str, version: &str, authors: &[&str], description: &str) -> CargoConfig {
    CargoConfig {
        name: name.to_string(),
        version: version.to_string(),
        authors: authors.iter().map(|a| a.to_string()).collect(),
        description: description.to_string(),
    }
}

const MANIFEST: &str = "[package]\nname = \"foo\"\nversion = \"1.2.3\"\nauthors = [\"A B\"]\ndescription = \"d\"\n";

fn archive_entries(bytes: &[u8]) -> Vec<(String, Vec<u8>)> {
    let mut archive = zip::ZipArchive::new(std::io::Cursor::new(bytes.to_vec())).unwrap();
    let mut out = Vec::new();
    for i in 0..archive.len() {
        let mut f = archive.by_index(i).unwrap();
        let mut data = Vec::new();
        f.read_to_end(&mut data).unwrap();
        out.push((f.name().to_string(), data));
    }
    out
}

#[test]
fn generates_manifest_from_config() {
    let c = config("foo", "1.2.3", &["A B"], "d");
    let args = NugetSpecArgs::from_cargo(&c);
    assert_eq!(args.id, "foo");
    assert_eq!(args.version, "1.2.3");
    assert_eq!(args.authors, "A B");
    assert_eq!(args.description, "d");
    assert!(args.dependencies.entries.is_empty());
    let spec = nuspec(&args).unwrap();
    assert_eq!(spec.id, "foo");
    assert_eq!(spec.version, "1.2.3");
    let back = parse_nuspec(&spec.xml).unwrap();
    assert_eq!(back.id, "foo");
    assert_eq!(back.version, "1.2.3");
    assert_eq!(back.authors, "A B");
    assert_eq!(back.description, "d");
    assert!(back.dependencies.entries.is_empty());
}

#[test]
fn nuspec_text_has_the_metadata_elements() {
    let args = NugetSpecArgs::from_cargo(&config("foo", "1.2.3", &["A B"], "d"));
    let xml = nuspec(&args).unwrap().xml;
    assert!(xml.starts_with("<?xml version=\"1.0\" encoding=\"utf-8\"?>\n<package"));
    assert!(xml.contains("<id>foo</id>"));
    assert!(xml.contains("<version>1.2.3</version>"));
    assert!(xml.contains("<authors>A B</authors>"));
    assert!(xml.contains("<description>d</description>"));
    assert!(xml.contains("<dependencies></dependencies>"));
    assert!(xml.ends_with("</package>\n"));
}

#[test]
fn round_trip_keeps_markup_characters() {
    let c = config("a&b", "0.1.0-beta+build.5", &["X <x@y.z>", "Y & Z"], "1 < 2 > 0 & \"q\"\nline");
    let args = NugetSpecArgs::from_cargo(&c);
    assert_eq!(args.authors, "X <x@y.z>, Y & Z");
    let spec = nuspec(&args).unwrap();
    assert!(spec.xml.contains("<authors>X &lt;x@y.z&gt;, Y &amp; Z</authors>"));
    let back = parse_nuspec(&spec.xml).unwrap();
    assert_eq!(back.id, args.id);
    assert_eq!(back.version, args.version);
    assert_eq!(back.authors, args.authors);
    assert_eq!(back.description, args.description);
}

#[test]
fn authors_are_joined_with_commas() {
    let args = NugetSpecArgs::from_cargo(&config("p", "1.0.0", &["A", "B", "C"], "x"));
    assert_eq!(args.authors, "A, B, C");
}

#[test]
fn control_character_fails_serialization() {
    let args = NugetSpecArgs::from_cargo(&config("p", "1.0.0", &["A"], "bell\u{7}"));
    assert_eq!(nuspec(&args).err(), Some(NuspecError::Serialization));
}

#[test]
fn dependencies_are_written_as_attributes() {
    let mut args = NugetSpecArgs::from_cargo(&config("p", "1.0.0", &["A"], "x"));
    args.dependencies = NugetDependencies {
        entries: vec![NugetDependency { id: "q\"r".to_string(), version: "[1.0,2.0)".to_string() }],
    };
    let xml = nuspec(&args).unwrap().xml;
    assert!(xml.contains("<dependencies><dependency id=\"q&quot;r\" version=\"[1.0,2.0)\" /></dependencies>"));
    assert!(NugetDependencies::new().entries.is_empty());
}

#[test]
fn dependencies_read_back() {
    let mut args = NugetSpecArgs::from_cargo(&config("p", "1.0.0", &["A"], "x"));
    args.dependencies = NugetDependencies {
        entries: vec![
            NugetDependency { id: "a<'b'>".to_string(), version: "1.0 & up\r\n".to_string() },
            NugetDependency { id: "c".to_string(), version: "2.0.0".to_string() },
        ],
    };
    let xml = nuspec(&args).unwrap().xml;
    let back = parse_nuspec(&xml).unwrap();
    assert_eq!(back.dependencies.entries.len(), 2);
    assert_eq!(back.dependencies.entries[0].id, "a<'b'>");
    assert_eq!(back.dependencies.entries[0].version, "1.0 & up\r\n");
    assert_eq!(back.dependencies.entries[1].id, "c");
    assert_eq!(back.dependencies.entries[1].version, "2.0.0");
    assert_eq!(back.id, "p");
}

#[test]
fn parse_rejects_foreign_text() {
    assert!(parse_nuspec("<package/>").is_none());
    assert!(parse_nuspec("").is_none());
}

#[test]
fn escaping_replaces_markup_characters() {
    assert_eq!(escape_text("a<b>&c"), "a&lt;b&gt;&amp;c");
    assert_eq!(escape_text("plain"), "plain");
    assert_eq!(escape_attr("'\"\n"), "&apos;&quot;&#xA;");
}

#[test]
fn manifest_is_read() {
    let c = parse_toml(MANIFEST).unwrap();
    assert_eq!(c.name, "foo");
    assert_eq!(c.version, "1.2.3");
    assert_eq!(c.authors, vec!["A B".to_string()]);
    assert_eq!(c.description, "d");
}

#[test]
fn missing_version_stops_before_build() {
    let text = "[package]\nname = \"foo\"\nauthors = [\"A B\"]\ndescription = \"d\"\n";
    assert_eq!(parse_toml(text).err(), Some(ManifestError::FieldMissing(ManifestField::Version)));
    assert_eq!(ManifestField::Version.key(), "version");
    let s = first_stage();
    assert_eq!(s, Stage::ReadManifest);
    assert_eq!(next_step(s, false), Step::Failed(Stage::ReadManifest));
}

#[test]
fn malformed_manifest_is_a_parse_error() {
    assert_eq!(parse_toml("[package\nname = ").err(), Some(ManifestError::Parse));
}

#[test]
fn bad_version_and_missing_fields() {
    let bad = "[package]\nname = \"foo\"\nversion = \"1.2\"\nauthors = [\"A\"]\ndescription = \"d\"\n";
    assert_eq!(parse_toml(bad).err(), Some(ManifestError::VersionInvalid));
    let no_authors = "[package]\nname = \"foo\"\nversion = \"1.2.3\"\nauthors = []\ndescription = \"d\"\n";
    assert_eq!(parse_toml(no_authors).err(), Some(ManifestError::FieldMissing(ManifestField::Authors)));
    let no_name = "[package]\nversion = \"1.2.3\"\n";
    assert_eq!(parse_toml(no_name).err(), Some(ManifestError::FieldMissing(ManifestField::Name)));
    let no_description = "[package]\nname = \"foo\"\nversion = \"1.2.3\"\nauthors = [\"A\"]\n";
    assert_eq!(
        parse_toml(no_description).err(),
        Some(ManifestError::FieldMissing(ManifestField::Description))
    );
}

#[test]
fn fields_decide_in_order() {
    let r = config_from_fields(None, None, None, None);
    assert_eq!(r.err(), Some(ManifestError::FieldMissing(ManifestField::Name)));
    let r = config_from_fields(
        Some("n".to_string()),
        Some("x".to_string()),
        Some(vec!["a".to_string()]),
        Some("d".to_string()),
    );
    assert_eq!(r.err(), Some(ManifestError::VersionInvalid));
    let r = config_from_fields(
        Some("n".to_string()),
        Some("2.0.0-rc.1".to_string()),
        Some(vec!["a".to_string()]),
        Some("d".to_string()),
    );
    assert_eq!(r.unwrap().version, "2.0.0-rc.1");
}

#[test]
fn archive_holds_the_nuspec_and_the_library() {
    let c = parse_toml(MANIFEST).unwrap();
    let spec = nuspec(&NugetSpecArgs::from_cargo(&c)).unwrap();
    let build = CargoBuildOutput { target: CargoBuildTarget::Local, path: "target/release/libfoo.so".to_string() };
    let args = NugetPackArgs::from_build(&spec, &build);
    assert_eq!(args.cargo_libs.len(), 1);
    assert_eq!(args.cargo_libs[0].target, NugetTarget::Local);
    let lib = vec![0u8, 1, 2, 255, 7];
    let nupkg = pack(&args, &vec![lib.clone()]).unwrap();
    assert_eq!(nupkg.name, "foo-1.2.3.nupkg");
    let entries = archive_entries(nupkg.buf.as_bytes());
    assert_eq!(entries.len(), 2);
    assert_eq!(entries[0].0, "foo.nuspec");
    assert_eq!(entries[0].1, spec.xml.as_bytes());
    let back = parse_nuspec(std::str::from_utf8(&entries[0].1).unwrap()).unwrap();
    assert_eq!(back.id, "foo");
    assert_eq!(back.authors, "A B");
    assert_eq!(entries[1].0, "runtimes/local/native/libfoo.so");
    assert_eq!(entries[1].1, lib);
}

#[test]
fn packing_twice_gives_the_same_bytes() {
    let c = config("foo", "1.2.3", &["A"], "d");
    let spec = nuspec(&NugetSpecArgs::from_cargo(&c)).unwrap();
    let build = CargoBuildOutput { target: CargoBuildTarget::Local, path: "libfoo.so".to_string() };
    let args = NugetPackArgs::from_build(&spec, &build);
    let a = pack(&args, &vec![vec![9u8; 100]]).unwrap();
    let b = pack(&args, &vec![vec![9u8; 100]]).unwrap();
    assert!(a.buf == b.buf);
    assert!(a.buf.len() > 0);
    assert!(PackError::ArchiveWrite != PackError::BuildArtifactUnreadable);
}

#[test]
fn file_name_is_the_last_segment() {
    assert_eq!(path_file_name("target/debug/libfoo.so"), "libfoo.so");
    assert_eq!(path_file_name("C:\\build\\foo.dll"), "foo.dll");
    assert_eq!(path_file_name("foo.dylib"), "foo.dylib");
    assert_eq!(path_file_name("dir/"), "");
}

#[test]
fn default_directory_is_current() {
    let name = package_name("foo", "1.2.3");
    assert_eq!(name, "foo-1.2.3.nupkg");
    assert_eq!(save_path(None, &name), "./foo-1.2.3.nupkg");
    assert_eq!(save_path(Some("out".to_string()), &name), "out/foo-1.2.3.nupkg");
    assert_eq!(save_path(Some("out/".to_string()), &name), "out/foo-1.2.3.nupkg");
    assert_eq!(save_path(Some(String::new()), &name), "foo-1.2.3.nupkg");
}

#[test]
fn authors_must_all_be_strings() {
    let text = "[package]\nname = \"foo\"\nversion = \"1.2.3\"\nauthors = [\"A\", 3]\ndescription = \"d\"\n";
    assert_eq!(parse_toml(text).err(), Some(ManifestError::FieldMissing(ManifestField::Authors)));
    let c = parse_toml("[package]\nname = \"x\"\nversion = \"0.1.0\"\nauthors = [\"A\", \"B\"]\ndescription = \"e\"\n").unwrap();
    assert_eq!(c.authors, vec!["A".to_string(), "B".to_string()]);
}

#[test]
fn save_args_point_at_the_package() {
    let c = config("foo", "1.2.3", &["A"], "d");
    let spec = nuspec(&NugetSpecArgs::from_cargo(&c)).unwrap();
    let build = CargoBuildOutput { target: CargoBuildTarget::Local, path: "libfoo.so".to_string() };
    let nupkg = pack(&NugetPackArgs::from_build(&spec, &build), &vec![vec![1u8]]).unwrap();
    let save = NugetSaveArgs::from_nupkg(Some("pkgs".to_string()), &nupkg);
    assert_eq!(save.path, "pkgs/foo-1.2.3.nupkg");
    assert!(*save.nupkg == nupkg.buf);
}

#[test]
fn save_failure_names_the_stage() {
    assert_eq!(next_step(Stage::BuildNupkg, true), Step::Run(Stage::SaveNupkg));
    assert_eq!(next_step(Stage::SaveNupkg, false), Step::Failed(Stage::SaveNupkg));
    let msg = failure_message(Stage::SaveNupkg, "disk full");
    assert_eq!(msg, "error saving nupkg: disk full");
}

#[test]
fn stages_run_in_order() {
    assert_eq!(next_step(Stage::ReadManifest, true), Step::Run(Stage::BuildLib));
    assert_eq!(next_step(Stage::BuildLib, true), Step::Run(Stage::BuildNuspec));
    assert_eq!(next_step(Stage::BuildNuspec, true), Step::Run(Stage::BuildNupkg));
    assert_eq!(next_step(Stage::SaveNupkg, true), Step::Done);
    assert_eq!(Stage::BuildLib.label(), "building Rust lib");
}

#[test]
fn debug_rendering_hides_bytes() {
    let buf = Buf::from(vec![b'S', b'E', b'C', b'R', b'E', b'T']);
    assert_eq!(buf.debug_string(), "Buf");
    assert_eq!(buf.len(), 6);
    assert_eq!(buf.as_bytes(), b"SECRET");
    let c = config("foo", "1.2.3", &["A"], "d");
    let spec = nuspec(&NugetSpecArgs::from_cargo(&c)).unwrap();
    let build = CargoBuildOutput { target: CargoBuildTarget::Local, path: "libfoo.so".to_string() };
    let nupkg = pack(&NugetPackArgs::from_build(&spec, &build), &vec![b"SECRET".to_vec()]).unwrap();
    let text = nupkg.debug_string();
    assert_eq!(text, "Nupkg { name: foo-1.2.3.nupkg, buf: Buf }");
    assert!(!text.contains("SECRET"));
    assert_eq!(buf.into_vec(), b"SECRET".to_vec());
}
