//! The project side: the configuration read from a cargo manifest, and what a
//! build of it produced.
use vstd::prelude::*;

verus! {

/// Whether `text` is a well-formed TOML document.
pub uninterp spec fn toml_accepts(text: Seq<char>) -> bool;

/// Whether `text` is a semantic version: major.minor.patch with optional
/// pre-release and build metadata.
pub uninterp spec fn semver_accepts(text: Seq<char>) -> bool;

#[verifier::external_type_specification]
#[verifier::external_body]
pub struct ExTomlValue(toml::Value);

#[verifier::external_type_specification]
#[verifier::external_body]
pub struct ExTomlError(toml::de::Error);

/// Relies on toml::from_str: the text parses into a TOML value exactly when it is
/// a well-formed TOML document.
#[verifier::external_body]
fn parse_document(text: &str) -> (r: Result<toml::Value, toml::de::Error>)
    ensures
        r is Ok <==> toml_accepts(text@),
{
    toml::from_str::<toml::Value>(text)
}

/// The string under `key` in table `table` of the TOML document `text`, where
/// the document is well formed and that value exists and is a string.
pub uninterp spec fn toml_str_at(text: Seq<char>, table: Seq<char>, key: Seq<char>) -> Option<
    Seq<char>,
>;

/// The strings under `key` in table `table` of the TOML document `text`, where
/// the document is well formed and that value exists and is an array of strings.
pub uninterp spec fn toml_strs_at(text: Seq<char>, table: Seq<char>, key: Seq<char>) -> Option<
    Seq<Seq<char>>,
>;

/// Relies on toml::from_str, toml::Value::get and toml::Value::as_str: the string
/// under `key` in table `table` of the document, a function of the text alone.
#[verifier::external_body]
fn toml_str(text: &str, table: &str, key: &str) -> (r: Option<String>)
    ensures
        opt_text(r) == toml_str_at(text@, table@, key@),
{
    let doc = toml::from_str::<toml::Value>(text).ok()?;
    doc.get(table)?.get(key)?.as_str().map(String::from)
}

/// Relies on toml::from_str, toml::Value::get and toml::Value::try_into: the
/// array of strings under `key` in table `table` of the document, a function of
/// the text alone.
#[verifier::external_body]
fn toml_strs(text: &str, table: &str, key: &str) -> (r: Option<Vec<String>>)
    ensures
        opt_texts(r) == toml_strs_at(text@, table@, key@),
{
    let doc = toml::from_str::<toml::Value>(text).ok()?;
    doc.get(table)?.get(key)?.clone().try_into::<Vec<String>>().ok()
}

/// The text of an optional string.
pub open spec fn opt_text(o: Option<String>) -> Option<Seq<char>> {
    match o {
        Some(s) => Some(s@),
        None => None,
    }
}

/// The texts of an optional list of strings.
pub open spec fn opt_texts(o: Option<Vec<String>>) -> Option<Seq<Seq<char>>> {
    match o {
        Some(v) => Some(Seq::new(v@.len(), |i: int| v@[i]@)),
        None => None,
    }
}

/// Relies on semver::Version::parse: it succeeds exactly on semantic versions.
#[verifier::external_body]
fn semver_parses(text: &str) -> (r: bool)
    ensures
        r == semver_accepts(text@),
{
    semver::Version::parse(text).is_ok()
}

/// The configuration of a project as plain text values.
pub struct ProjectConfig {
    pub name: Seq<char>,
    pub version: Seq<char>,
    pub authors: Seq<Seq<char>>,
    pub description: Seq<char>,
}

/// The configuration of a project, read from its cargo manifest.
pub struct CargoConfig {
    pub name: String,
    pub version: String,
    pub authors: Vec<String>,
    pub description: String,
}

impl View for CargoConfig {
    type V = ProjectConfig;

    open spec fn view(&self) -> ProjectConfig {
        ProjectConfig {
            name: self.name@,
            version: self.version@,
            authors: Seq::new(self.authors@.len(), |i: int| self.authors@[i]@),
            description: self.description@,
        }
    }
}

/// A configuration as the manifest reader hands it out: at least one author, and
/// a version that is a semantic version.
pub open spec fn config_valid(c: ProjectConfig) -> bool {
    c.authors.len() > 0 && semver_accepts(c.version)
}

/// What a compilation was made for.
#[derive(Debug, PartialEq, Eq, Clone, Copy)]
pub enum CargoBuildTarget {
    /// The host that runs the build.
    Local,
}

/// What a build produced: the target it was made for and the path of the
/// compiled library.
pub struct CargoBuildOutput {
    pub target: CargoBuildTarget,
    pub path: String,
}

/// A required field of the cargo manifest.
#[derive(Debug, PartialEq, Eq, Clone, Copy)]
pub enum ManifestField {
    Name,
    Version,
    Authors,
    Description,
}

impl ManifestField {
    /// The key of the field in the manifest.
    pub fn key(&self) -> (r: &'static str)
        ensures
            r@ == field_key(*self),
    {
        match self {
            ManifestField::Name => "name",
            ManifestField::Version => "version",
            ManifestField::Authors => "authors",
            ManifestField::Description => "description",
        }
    }
}

/// The key of a field in the manifest.
pub open spec fn field_key(f: ManifestField) -> Seq<char> {
    match f {
        ManifestField::Name => "name"@,
        ManifestField::Version => "version"@,
        ManifestField::Authors => "authors"@,
        ManifestField::Description => "description"@,
    }
}

/// Why the cargo manifest could not be read.
#[derive(Debug, PartialEq, Eq, Clone, Copy)]
pub enum ManifestError {
    /// There is no manifest at the given place.
    NotFound,
    /// The manifest is not a well-formed TOML document.
    Parse,
    /// A required field is absent from the package table.
    FieldMissing(ManifestField),
    /// The version is not a semantic version.
    VersionInvalid,
}

/// What the fields found in the manifest's package table give: the first field
/// absent, in the order name, version, authors, description, is the error, an
/// empty author list counting as absent; then a version that is no semantic
/// version; otherwise the configuration of those fields.
pub open spec fn fields_result(
    name: Option<Seq<char>>,
    version: Option<Seq<char>>,
    authors: Option<Seq<Seq<char>>>,
    description: Option<Seq<char>>,
) -> Result<ProjectConfig, ManifestError> {
    if name is None {
        Err(ManifestError::FieldMissing(ManifestField::Name))
    } else if version is None {
        Err(ManifestError::FieldMissing(ManifestField::Version))
    } else if authors is None || authors.unwrap().len() == 0 {
        Err(ManifestError::FieldMissing(ManifestField::Authors))
    } else if description is None {
        Err(ManifestError::FieldMissing(ManifestField::Description))
    } else if !semver_accepts(version.unwrap()) {
        Err(ManifestError::VersionInvalid)
    } else {
        Ok(
            ProjectConfig {
                name: name.unwrap(),
                version: version.unwrap(),
                authors: authors.unwrap(),
                description: description.unwrap(),
            },
        )
    }
}

/// The view of a manifest reading.
pub open spec fn config_view(r: Result<CargoConfig, ManifestError>) -> Result<
    ProjectConfig,
    ManifestError,
> {
    match r {
        Ok(c) => Ok(c@),
        Err(e) => Err(e),
    }
}

/// Builds the configuration from the fields found in the manifest's package
/// table. The first field absent, in the order name, version, authors,
/// description, gives the error; an empty author list counts as absent.
pub fn config_from_fields(
    name: Option<String>,
    version: Option<String>,
    authors: Option<Vec<String>>,
    description: Option<String>,
) -> (r: Result<CargoConfig, ManifestError>)
    ensures
        config_view(r) == fields_result(
            opt_text(name),
            opt_text(version),
            opt_texts(authors),
            opt_text(description),
        ),
        r is Ok ==> config_valid(r.unwrap()@),
{
    let name = match name {
        Some(n) => n,
        None => return Err(ManifestError::FieldMissing(ManifestField::Name)),
    };
    let version = match version {
        Some(v) => v,
        None => return Err(ManifestError::FieldMissing(ManifestField::Version)),
    };
    let authors = match authors {
        Some(a) => a,
        None => return Err(ManifestError::FieldMissing(ManifestField::Authors)),
    };
    if authors.len() == 0 {
        return Err(ManifestError::FieldMissing(ManifestField::Authors));
    }
    let description = match description {
        Some(d) => d,
        None => return Err(ManifestError::FieldMissing(ManifestField::Description)),
    };
    if !semver_parses(version.as_str()) {
        return Err(ManifestError::VersionInvalid);
    }
    let r = CargoConfig { name, version, authors, description };
    assert(r@ =~= fields_result(
        Some(r.name@),
        Some(r.version@),
        opt_texts(Some(r.authors)),
        Some(r.description@),
    ).unwrap());
    Ok(r)
}

/// Reads the project configuration from the text of a cargo manifest.
///
/// Fails with `Parse` exactly when the text is not a well-formed TOML document;
/// otherwise the fields of its package table decide, as `fields_result` states.
pub fn parse_toml(text: &str) -> (r: Result<CargoConfig, ManifestError>)
    ensures
        r == Err::<CargoConfig, ManifestError>(ManifestError::Parse) <==> !toml_accepts(text@),
        toml_accepts(text@) ==> config_view(r) == fields_result(
            toml_str_at(text@, "package"@, "name"@),
            toml_str_at(text@, "package"@, "version"@),
            toml_strs_at(text@, "package"@, "authors"@),
            toml_str_at(text@, "package"@, "description"@),
        ),
        r is Ok ==> config_valid(r.unwrap()@),
{
    match parse_document(text) {
        Ok(_) => {},
        Err(_) => return Err(ManifestError::Parse),
    }
    let name = toml_str(text, "package", "name");
    let version = toml_str(text, "package", "version");
    let authors = toml_strs(text, "package", "authors");
    let description = toml_str(text, "package", "description");
    config_from_fields(name, version, authors, description)
}

} // verus!
