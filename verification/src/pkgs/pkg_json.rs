//! Package metadata from an npm registry: the shapes of `package.json` and of
//! registry answers, the address of a package on a registry, and the choice
//! of the version that a request asks for.
use vstd::prelude::*;

use crate::pattern::{at_sign_restored, regex_replace};
use crate::string_map::StringMap;
use crate::text::{chars_of, concat_text, lemma_split_on_nonempty, split, split_on, string_of_range, texts};

verus! {

/// A person named in a package, with details.
pub struct PersonDetail {
    pub name: String,
    pub url: Option<String>,
    pub email: Option<String>,
}

/// A person named in a package: a bare name, or a name with details.
pub enum Person {
    Name(String),
    Detail(PersonDetail),
}

/// The standard fields of a `package.json`.
pub struct PackageJsonStandard {
    /// The name of the package.
    pub name: Option<String>,
    pub version: Option<String>,
    pub description: Option<String>,
    pub keywords: Option<Vec<String>>,
    pub homepage: Option<String>,
    pub author: Option<Person>,
    /// `devDependencies`: package name to version range.
    pub dev_dependencies: StringMap<String>,
    pub dependencies: StringMap<String>,
}

/// The distribution tags of a package: tag name to version.
pub struct DistTags {
    pub map: StringMap<String>,
}

impl DistTags {
    /// Tags holding only `latest`, set to `latest`.
    pub fn new(latest: String) -> (r: Self)
        ensures
            r.map@ == Map::<Seq<char>, String>::empty().insert("latest"@, latest),
    {
        let mut map = StringMap::new();
        map.insert(String::from_str("latest"), latest);
        DistTags { map }
    }

    /// Sets tag `tag_name` to `version`.
    pub fn insert_tag(&mut self, tag_name: String, version: String)
        ensures
            final(self).map@ == old(self).map@.insert(tag_name@, version),
    {
        self.map.insert(tag_name, version);
    }

    /// The version that tag `tag_name` names, if it is set.
    pub fn get_tag(&self, tag_name: &str) -> (r: Option<&String>)
        ensures
            match r {
                Some(v) => self.map@.contains_key(tag_name@) && *v == self.map@[tag_name@],
                None => !self.map@.contains_key(tag_name@),
            },
    {
        self.map.get(tag_name)
    }

    /// The version that the `latest` tag names, if it is set.
    pub fn latest(&self) -> (r: Option<&String>)
        ensures
            match r {
                Some(v) => self.map@.contains_key("latest"@) && *v == self.map@["latest"@],
                None => !self.map@.contains_key("latest"@),
            },
    {
        self.map.get("latest")
    }
}

/// The abbreviated metadata of a package that a registry answers with.
pub struct AbbreviatedMetadata {
    pub name: String,
    pub modified: String,
    pub dist_tags: DistTags,
    /// Version text to the metadata of that version.
    pub versions: StringMap<AbbreviatedVersion>,
}

/// The full metadata of one version.
pub struct FullVersion {
    _id: String,
    _shasum: String,
    _from: String,
    _npm_version: String,
    _node_version: String,
    _npm_user: String,
    license_text: Option<String>,
    git_head: Option<String>,
}

/// What a request for package metadata gives.
pub enum PackageJsonReturn {
    FullVersion(FullVersion),
    OnlyAllVersions(AbbreviatedMetadata),
    Version(AbbreviatedVersion),
    NotFound,
}

/// The abbreviated metadata of one version.
pub struct AbbreviatedVersion {
    pub name: Option<String>,
    pub version: String,
}

/// The text of an optional string.
pub open spec fn opt_view(o: Option<String>) -> Option<Seq<char>> {
    match o {
        Some(s) => Some(s@),
        None => None,
    }
}

/// A copy of an optional string.
fn clone_opt(o: &Option<String>) -> (r: Option<String>)
    ensures
        opt_view(r) == opt_view(*o),
{
    match o {
        Some(s) => Some(s.clone()),
        None => None,
    }
}

impl AbbreviatedVersion {
    /// A copy of this version's metadata.
    pub fn create(&self) -> (r: Self)
        ensures
            opt_view(r.name) == opt_view(self.name),
            r.version@ == self.version@,
    {
        AbbreviatedVersion { name: clone_opt(&self.name), version: self.version.clone() }
    }
}

/// What a request for package metadata asks for.
pub struct PackageJsonOptions {
    /// The version or tag asked for; `latest` when absent.
    pub version: Option<String>,
    pub full_metadata: bool,
    pub all_versions: bool,
    /// The registry to ask; the one configured for the package's scope when absent.
    pub registry_url: Option<String>,
    pub omit_deprecated: bool,
}

impl Default for PackageJsonOptions {
    /// Asks for the `latest` version's abbreviated metadata from the
    /// configured registry.
    fn default() -> (r: Self)
        ensures
            opt_view(r.version) == Some("latest"@),
            !r.full_metadata,
            !r.all_versions,
            r.registry_url is None,
            !r.omit_deprecated,
    {
        PackageJsonOptions {
            version: Some(String::from_str("latest")),
            full_metadata: false,
            all_versions: false,
            registry_url: None,
            omit_deprecated: false,
        }
    }
}

/// The version or tag that `options` asks for: the one given, else `latest`.
pub open spec fn requested_version_of(options: PackageJsonOptions) -> Seq<char> {
    match options.version {
        Some(v) => v@,
        None => "latest"@,
    }
}

/// The version or tag that `options` asks for.
pub fn requested_version(options: &PackageJsonOptions) -> (r: String)
    ensures
        r@ == requested_version_of(*options),
{
    match &options.version {
        Some(v) => v.clone(),
        None => String::from_str("latest"),
    }
}

/// The scope of a package: its name up to the first `/`.
pub fn package_scope(package_name: &str) -> (r: String)
    ensures
        r@ == split_on(package_name@, "/"@)[0],
{
    proof {
        reveal_strlit("/");
        lemma_split_on_nonempty(package_name@, "/"@);
    }
    let parts = split(package_name, "/");
    assert(texts(parts@)[0] == parts@[0]@);
    parts[0].clone()
}

/// A registry URL without its trailing `/`, where it has one.
pub open spec fn trimmed_registry_url(url: Seq<char>) -> Seq<char> {
    if url.len() > 0 && url.last() == '/' {
        url.drop_last()
    } else {
        url
    }
}

/// Whether a byte is left as it is by percent-encoding: an ASCII letter or
/// digit, `-`, `.`, `_` or `~`.
pub open spec fn unreserved_byte(b: u8) -> bool {
    (48 <= b <= 57) || (65 <= b <= 90) || (97 <= b <= 122) || b == 45 || b == 46 || b == 95 || b
        == 126
}

/// The upper-case hexadecimal digit of `d` (below 16).
pub open spec fn hex_digit(d: u8) -> char {
    if d < 10 {
        (48 + d) as char
    } else {
        (55 + d) as char
    }
}

/// Bytes percent-encoded: each byte left as its character where unreserved,
/// else written `%` and two upper-case hexadecimal digits.
pub open spec fn percent_encoded(bytes: Seq<u8>) -> Seq<char>
    decreases bytes.len(),
{
    if bytes.len() == 0 {
        Seq::empty()
    } else {
        let b = bytes.last();
        percent_encoded(bytes.drop_last()) + if unreserved_byte(b) {
            seq![b as char]
        } else {
            seq!['%', hex_digit(b / 16), hex_digit(b % 16)]
        }
    }
}

/// Percent-encodes the UTF-8 bytes of `s` with `urlencoding::encode`, which
/// leaves ASCII letters, digits, `-`, `.`, `_` and `~` as they are and writes
/// every other byte as `%` and two upper-case hexadecimal digits.
#[verifier::external_body]
fn url_encode(s: &str) -> (r: String)
    ensures
        r@ == percent_encoded(vstd::utf8::encode_utf8(s@)),
{
    urlencoding::encode(s).into_owned()
}

/// The address of a package on a registry, as `package_url_of` says.
pub open spec fn package_url_of(registry_url: Seq<char>, package_name: Seq<char>) -> Option<
    Seq<char>,
> {
    Some(
        trimmed_registry_url(registry_url) + "/"@ + at_sign_restored(
            percent_encoded(vstd::utf8::encode_utf8(package_name)),
        ),
    )
}

/// The address of a package on a registry: the registry URL without its
/// trailing `/`, a `/`, and the percent-encoded package name in which a
/// leading `%40` is turned back into `@`. Always given: the fixed pattern
/// for that compiles.
pub fn package_url(registry_url: &str, package_name: &str) -> (r: Option<String>)
    ensures
        match r {
            Some(u) => package_url_of(registry_url@, package_name@) == Some(u@),
            None => package_url_of(registry_url@, package_name@) is None,
        },
{
    let rc = chars_of(registry_url);
    let parsed_registry_url = if rc.len() > 0 && rc[rc.len() - 1] == '/' {
        string_of_range(&rc, 0, rc.len() - 1)
    } else {
        registry_url.to_owned()
    };
    proof {
        assert(rc@.subrange(0, rc@.len() - 1) =~= rc@.drop_last());
    }
    let encode_package_name = url_encode(package_name);
    match regex_replace("^%40", encode_package_name.as_str(), "@") {
        Some(name) => {
            let with_sep = concat_text(parsed_registry_url.as_str(), "/");
            Some(concat_text(with_sep.as_str(), name.as_str()))
        },
        None => None,
    }
}

/// Whether the tag that `options` asks for, where it is set, names a version
/// that the metadata lists.
pub open spec fn requested_version_listed(
    meta: AbbreviatedMetadata,
    options: PackageJsonOptions,
) -> bool {
    let tag = requested_version_of(options);
    meta.dist_tags.map@.contains_key(tag) ==> meta.versions@.contains_key(
        meta.dist_tags.map@[tag]@,
    )
}

/// Whether the tag that `options` asks for names a version that the metadata lists.
pub fn has_requested_version(meta: &AbbreviatedMetadata, options: &PackageJsonOptions) -> (r: bool)
    ensures
        r == requested_version_listed(*meta, *options),
{
    let version = requested_version(options);
    match meta.dist_tags.get_tag(version.as_str()) {
        Some(v) => meta.versions.contains_key(v.as_str()),
        None => true,
    }
}

/// What a registry's metadata gives for a request: all of it where all
/// versions are asked for; else the metadata of the version that the
/// requested tag names; else nothing.
pub fn select_package_json(meta: AbbreviatedMetadata, options: &PackageJsonOptions) -> (r:
    PackageJsonReturn)
    requires
        options.all_versions || requested_version_listed(meta, *options),
    ensures
        options.all_versions ==> r == PackageJsonReturn::OnlyAllVersions(meta),
        !options.all_versions ==> {
            let tag = requested_version_of(*options);
            if meta.dist_tags.map@.contains_key(tag) {
                let chosen = meta.versions@[meta.dist_tags.map@[tag]@];
                r matches PackageJsonReturn::Version(v) && opt_view(v.name) == opt_view(chosen.name)
                    && v.version@ == chosen.version@
            } else {
                r is NotFound
            }
        },
{
    if options.all_versions {
        return PackageJsonReturn::OnlyAllVersions(meta);
    }
    let version = requested_version(options);
    if let Some(v) = meta.dist_tags.get_tag(version.as_str()) {
        if let Some(version_meta_data) = meta.versions.get(v.as_str()) {
            return PackageJsonReturn::Version(version_meta_data.create());
        }
    }
    PackageJsonReturn::NotFound
}

} // verus!
