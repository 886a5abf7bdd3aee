//! The package catalog that a project's lock document pins: each locked
//! package's coordinate, version, tap, OCI location, archive digest and
//! exported namespaces, with no namespace exported twice.

use vstd::prelude::*;
use crate::hal::{field, field_value, map_entries, HalValue};
use crate::text_set::{
    lemma_less_asymmetric, lemma_less_total, lemma_less_transitive, lemma_sorted_of, sorted_of,
};
use crate::text::{chars_of, owned, push_str};
use crate::text_set::{sorted_texts, text_before, text_less, TextSet};

verus! {

/// One package as the lock document pins it.
#[derive(Debug, Clone, PartialEq, Eq)]
pub struct LockedPackage {
    pub coordinate: String,
    pub version: String,
    pub tap: String,
    pub oci_repository: String,
    pub oci_manifest: String,
    pub archive_sha256: String,
    pub namespaces: Vec<String>,
}

/// A locked package as the contracts see it.
pub struct PackageModel {
    pub coordinate: Seq<char>,
    pub version: Seq<char>,
    pub tap: Seq<char>,
    pub oci_repository: Seq<char>,
    pub oci_manifest: Seq<char>,
    pub archive_sha256: Seq<char>,
    pub namespaces: Seq<Seq<char>>,
}

pub open spec fn package_model(package: LockedPackage) -> PackageModel {
    PackageModel {
        coordinate: package.coordinate@,
        version: package.version@,
        tap: package.tap@,
        oci_repository: package.oci_repository@,
        oci_manifest: package.oci_manifest@,
        archive_sha256: package.archive_sha256@,
        namespaces: package.namespaces@.map_values(|s: String| s@),
    }
}

// ---------------------------------------------------------------------------
// Versions
// ---------------------------------------------------------------------------

/// Why the `semver` crate refuses a version text (its `Display` text), or
/// `None` where `semver::Version::parse` accepts it.
pub uninterp spec fn semver_failure(text: Seq<char>) -> Option<Seq<char>>;

/// `semver::Version::parse`, with a refusal given as the error's `Display`
/// text. The contract names the outcome by `semver_failure`.
#[verifier::external_body]
fn parse_version(text: &str) -> (r: Result<(), String>)
    ensures
        match r {
            Ok(()) => semver_failure(text@) is None,
            Err(m) => semver_failure(text@) == Some(m@),
        },
{
    semver::Version::parse(text).map(|_| ()).map_err(|error| format!("{error}"))
}

// ---------------------------------------------------------------------------
// Digests and repositories
// ---------------------------------------------------------------------------

pub open spec fn has_prefix(text: Seq<char>, prefix: Seq<char>) -> bool {
    prefix.len() <= text.len() && text.take(prefix.len() as int) == prefix
}

pub open spec fn is_lower_hex_char(c: char) -> bool {
    ('0' <= c && c <= '9') || ('a' <= c && c <= 'f')
}

/// A SHA-256 digest: 64 lowercase hexadecimal digits, after an optional
/// `sha256:` prefix.
pub open spec fn is_digest(value: Seq<char>) -> bool {
    digest_digits(value).len() == 64 && all_lower_hex_chars(digest_digits(value))
}

/// The digits of a digest text: what follows an optional `sha256:`.
pub open spec fn digest_digits(value: Seq<char>) -> Seq<char> {
    if has_prefix(value, "sha256:"@) {
        value.skip(7)
    } else {
        value
    }
}

pub open spec fn all_lower_hex_chars(digits: Seq<char>) -> bool {
    forall|i: int| 0 <= i < digits.len() ==> is_lower_hex_char(#[trigger] digits[i])
}

fn starts_with(text: &[char], prefix: &str) -> (r: bool)
    ensures
        r == has_prefix(text@, prefix@),
{
    let p = chars_of(prefix);
    if p.len() > text.len() {
        return false;
    }
    let mut i: usize = 0;
    while i < p.len()
        invariant
            i <= p@.len(),
            p@ == prefix@,
            p@.len() <= text@.len(),
            forall|j: int| 0 <= j < i ==> text@[j] == p@[j],
        decreases p@.len() - i,
    {
        if text[i] != p[i] {
            assert(text@.take(p@.len() as int)[i as int] != p@[i as int]);
            return false;
        }
        i = i + 1;
    }
    assert(text@.take(p@.len() as int) =~= p@);
    true
}

fn digest_ok(value: &str) -> (r: bool)
    ensures
        r == is_digest(value@),
{
    let chars = chars_of(value);
    proof { reveal_strlit("sha256:"); }
    let start: usize = if starts_with(chars.as_slice(), "sha256:") { 7 } else { 0 };
    let ghost digits = digest_digits(value@);
    assert(digits =~= value@.skip(start as int));
    if chars.len() - start != 64 {
        return false;
    }
    let mut i: usize = start;
    while i < chars.len()
        invariant
            start <= i <= chars@.len(),
            chars@ == value@,
            digits == value@.skip(start as int),
            digits == digest_digits(value@),
            digits.len() == 64,
            chars@.len() - start == 64,
            forall|j: int| 0 <= j < i - start ==> is_lower_hex_char(#[trigger] digits[j]),
        decreases chars@.len() - i,
    {
        let c = chars[i];
        if !(('0' <= c && c <= '9') || ('a' <= c && c <= 'f')) {
            assert(digits[i - start] == c);
            return false;
        }
        i = i + 1;
    }
    true
}

pub open spec fn digest_spec(value: Seq<char>, label: Seq<char>) -> Result<(), Seq<char>> {
    if is_digest(value) {
        Ok(())
    } else {
        Err("locked package :"@ + label + " must be SHA-256"@)
    }
}

pub open spec fn plain(r: Result<(), String>) -> Result<(), Seq<char>> {
    match r {
        Ok(()) => Ok(()),
        Err(m) => Err(m@),
    }
}

fn validate_digest(value: &str, label: &str) -> (r: Result<(), String>)
    ensures
        plain(r) == digest_spec(value@, label@),
{
    if digest_ok(value) {
        Ok(())
    } else {
        let mut m = owned("locked package :");
        push_str(&mut m, label);
        push_str(&mut m, " must be SHA-256");
        Err(m)
    }
}

pub open spec fn is_lower_alnum(c: char) -> bool {
    ('a' <= c && c <= 'z') || ('0' <= c && c <= '9')
}

/// A repository name: lowercase letters, digits, `.`, `_` and `-`,
/// starting and ending with a letter or digit.
pub open spec fn is_repository_name(name: Seq<char>) -> bool {
    &&& name.len() > 0
    &&& forall|i: int|
        0 <= i < name.len() ==> is_lower_alnum(#[trigger] name[i]) || name[i] == '.' || name[i] == '_'
            || name[i] == '-'
    &&& is_lower_alnum(name[0])
    &&& is_lower_alnum(name.last())
}

pub open spec fn oci_repository_spec(value: Seq<char>) -> Result<(), Seq<char>> {
    if !has_prefix(value, "ghcr.io/hara-packages/"@) {
        Err("locked package :oci/repository must be under ghcr.io/hara-packages"@)
    } else if !is_repository_name(value.skip(22)) {
        Err("locked package :oci/repository is invalid"@)
    } else {
        Ok(())
    }
}

fn validate_oci_repository(value: &str) -> (r: Result<(), String>)
    ensures
        plain(r) == oci_repository_spec(value@),
{
    let chars = chars_of(value);
    proof { reveal_strlit("ghcr.io/hara-packages/"); }
    if !starts_with(chars.as_slice(), "ghcr.io/hara-packages/") {
        return Err(owned("locked package :oci/repository must be under ghcr.io/hara-packages"));
    }
    let ghost name = value@.skip(22);
    let n = chars.len();
    if n == 22 {
        return Err(owned("locked package :oci/repository is invalid"));
    }
    let mut i: usize = 22;
    while i < n
        invariant
            22 <= i <= n,
            n == chars@.len(),
            chars@ == value@,
            has_prefix(value@, "ghcr.io/hara-packages/"@),
            name == value@.skip(22),
            forall|j: int|
                0 <= j < i - 22 ==> is_lower_alnum(#[trigger] name[j]) || name[j] == '.' || name[j] == '_'
                    || name[j] == '-',
        decreases n - i,
    {
        let c = chars[i];
        let lower = ('a' <= c && c <= 'z') || ('0' <= c && c <= '9');
        if !(lower || c == '.' || c == '_' || c == '-') {
            assert(name[i - 22] == c);
            return Err(owned("locked package :oci/repository is invalid"));
        }
        i = i + 1;
    }
    let first = chars[22];
    let last = chars[n - 1];
    assert(name[0] == first && name.last() == last);
    if !(('a' <= first && first <= 'z') || ('0' <= first && first <= '9')) || !(('a' <= last && last
        <= 'z') || ('0' <= last && last <= '9')) {
        return Err(owned("locked package :oci/repository is invalid"));
    }
    Ok(())
}

// ---------------------------------------------------------------------------
// Reading the lock document
// ---------------------------------------------------------------------------

pub open spec fn string_spec(form: HalValue, label: Seq<char>) -> Result<Seq<char>, Seq<char>> {
    match form {
        HalValue::String(text) => Ok(text@),
        _ => Err(label + " must be a string"@),
    }
}

pub open spec fn scalar_text(form: HalValue) -> Option<Seq<char>> {
    match form {
        HalValue::String(text) => Some(text@),
        HalValue::Symbol(text) => Some(text@),
        _ => None,
    }
}

pub open spec fn scalar_spec(form: HalValue, label: Seq<char>) -> Result<Seq<char>, Seq<char>> {
    match scalar_text(form) {
        Some(text) => Ok(text),
        None => Err(label + " must be a string or symbol"@),
    }
}

pub open spec fn scalar_or_empty(form: HalValue) -> Seq<char> {
    match scalar_text(form) {
        Some(text) => text,
        None => Seq::empty(),
    }
}

/// A vector of strings or symbols, as the set of their texts.
pub open spec fn symbols_spec(form: HalValue, label: Seq<char>) -> Result<Set<Seq<char>>, Seq<char>> {
    match form {
        HalValue::Vector(items) => if forall|i: int| 0 <= i < items@.len() ==> (#[trigger] scalar_text(items@[i])) is Some {
            Ok(items@.map_values(|v: HalValue| scalar_or_empty(v)).to_set())
        } else {
            Err(label + " must be a string or symbol"@)
        },
        _ => Err(label + " must be a vector"@),
    }
}

pub open spec fn required_spec(descriptor: HalValue, key: Seq<char>) -> Result<HalValue, Seq<char>> {
    match field_value(descriptor, key) {
        Some(value) => Ok(value),
        None => Err("locked package is missing :"@ + key),
    }
}

pub open spec fn text_result(r: Result<String, String>) -> Result<Seq<char>, Seq<char>> {
    match r {
        Ok(text) => Ok(text@),
        Err(m) => Err(m@),
    }
}

fn labelled(label: &str, tail: &str) -> (m: String)
    ensures
        m@ == label@ + tail@,
{
    let mut m = owned(label);
    push_str(&mut m, tail);
    m
}

fn string_form(form: &HalValue, label: &str) -> (r: Result<String, String>)
    ensures
        text_result(r) == string_spec(*form, label@),
{
    match form {
        HalValue::String(text) => Ok(text.clone()),
        _ => Err(labelled(label, " must be a string")),
    }
}

fn scalar_form(form: &HalValue, label: &str) -> (r: Result<String, String>)
    ensures
        text_result(r) == scalar_spec(*form, label@),
{
    match form {
        HalValue::String(text) => Ok(text.clone()),
        HalValue::Symbol(text) => Ok(text.clone()),
        _ => Err(labelled(label, " must be a string or symbol")),
    }
}

fn symbols_form(form: &HalValue, label: &str) -> (r: Result<TextSet, String>)
    ensures
        match r {
            Ok(set) => symbols_spec(*form, label@) == Ok::<Set<Seq<char>>, Seq<char>>(set@.to_set())
                && sorted_texts(set@),
            Err(m) => symbols_spec(*form, label@) == Err::<Set<Seq<char>>, Seq<char>>(m@),
        },
{
    let items = match form {
        HalValue::Vector(items) => items,
        _ => return Err(labelled(label, " must be a vector")),
    };
    let ghost texts = items@.map_values(|v: HalValue| scalar_or_empty(v));
    let mut set = TextSet::new();
    assert(set@.to_set() =~= texts.take(0).to_set());
    let mut i: usize = 0;
    while i < items.len()
        invariant
            i <= items@.len(),
            *form == HalValue::Vector(*items),
            texts == items@.map_values(|v: HalValue| scalar_or_empty(v)),
            forall|j: int| 0 <= j < i ==> (#[trigger] scalar_text(items@[j])) is Some,
            set@.to_set() == texts.take(i as int).to_set(),
            sorted_texts(set@),
        decreases items@.len() - i,
    {
        let text = match scalar_form(&items[i], label) {
            Ok(text) => text,
            Err(m) => return Err(m),
        };
        set.insert(text);
        proof {
            assert(texts.take(i + 1) =~= texts.take(i as int).push(texts[i as int]));
            texts.take(i as int).lemma_push_to_set_commute(texts[i as int]);
        }
        i = i + 1;
    }
    assert(texts.take(i as int) =~= texts);
    Ok(set)
}

fn required<'a>(descriptor: &'a HalValue, key: &str) -> (r: Result<&'a HalValue, String>)
    ensures
        match r {
            Ok(value) => required_spec(*descriptor, key@) == Ok::<HalValue, Seq<char>>(*value),
            Err(m) => required_spec(*descriptor, key@) == Err::<HalValue, Seq<char>>(m@),
        },
{
    match field(descriptor, key) {
        Some(value) => Ok(value),
        None => Err(labelled("locked package is missing :", key)),
    }
}

/// What one entry of `:packages` pins: the coordinate, then the version
/// (a semver version), archive digest, tap, OCI repository and manifest
/// digest, and at least one exported namespace.
pub open spec fn package_spec(coordinate: HalValue, descriptor: HalValue) -> Result<PackageModel, Seq<char>> {
    match scalar_spec(coordinate, "locked package coordinate"@) {
        Err(m) => Err(m),
        Ok(coordinate) => if map_entries(descriptor) is None {
            Err("locked package descriptor must be a map"@)
        } else {
            match required_spec(descriptor, "version"@) {
                Err(m) => Err(m),
                Ok(version) => match string_spec(version, "locked package :version"@) {
                    Err(m) => Err(m),
                    Ok(version) => match semver_failure(version) {
                        Some(error) => Err("locked package "@ + coordinate + " has invalid version: "@ + error),
                        None => package_rest_spec(coordinate, version, descriptor),
                    },
                },
            }
        },
    }
}

pub open spec fn package_rest_spec(coordinate: Seq<char>, version: Seq<char>, descriptor: HalValue) -> Result<PackageModel, Seq<char>> {
    match required_spec(descriptor, "archive-sha256"@) {
        Err(m) => Err(m),
        Ok(archive) => match string_spec(archive, "locked package :archive-sha256"@) {
            Err(m) => Err(m),
            Ok(archive) => match digest_spec(archive, "archive-sha256"@) {
                Err(m) => Err(m),
                Ok(()) => match required_spec(descriptor, "tap"@) {
                    Err(m) => Err(m),
                    Ok(tap) => match string_spec(tap, "locked package :tap"@) {
                        Err(m) => Err(m),
                        Ok(tap) => package_oci_spec(coordinate, version, archive, tap, descriptor),
                    },
                },
            },
        },
    }
}

pub open spec fn package_oci_spec(
    coordinate: Seq<char>,
    version: Seq<char>,
    archive: Seq<char>,
    tap: Seq<char>,
    descriptor: HalValue,
) -> Result<PackageModel, Seq<char>> {
    match required_spec(descriptor, "oci/repository"@) {
        Err(m) => Err(m),
        Ok(repository) => match string_spec(repository, "locked package :oci/repository"@) {
            Err(m) => Err(m),
            Ok(repository) => match oci_repository_spec(repository) {
                Err(m) => Err(m),
                Ok(()) => match required_spec(descriptor, "oci/manifest"@) {
                    Err(m) => Err(m),
                    Ok(manifest) => match string_spec(manifest, "locked package :oci/manifest"@) {
                        Err(m) => Err(m),
                        Ok(manifest) => match digest_spec(manifest, "oci/manifest"@) {
                            Err(m) => Err(m),
                            Ok(()) => match required_spec(descriptor, "namespaces"@) {
                                Err(m) => Err(m),
                                Ok(namespaces) => match symbols_spec(namespaces, "locked package :namespaces"@) {
                                    Err(m) => Err(m),
                                    Ok(namespaces) => if namespaces.len() == 0 {
                                        Err("locked package "@ + coordinate + " exports no namespaces"@)
                                    } else {
                                        Ok(
                                            PackageModel {
                                                coordinate,
                                                version,
                                                tap,
                                                oci_repository: repository,
                                                oci_manifest: manifest,
                                                archive_sha256: archive,
                                                namespaces: sorted_of(namespaces),
                                            },
                                        )
                                    },
                                },
                            },
                        },
                    },
                },
            },
        },
    }
}

pub open spec fn package_result(r: Result<LockedPackage, String>) -> Result<PackageModel, Seq<char>> {
    match r {
        Ok(package) => Ok(package_model(package)),
        Err(m) => Err(m@),
    }
}

fn read_package(coordinate: &HalValue, descriptor: &HalValue) -> (r: Result<LockedPackage, String>)
    ensures
        package_result(r) == package_spec(*coordinate, *descriptor),
{
    let coordinate = match scalar_form(coordinate, "locked package coordinate") {
        Ok(text) => text,
        Err(m) => return Err(m),
    };
    if !matches!(descriptor, HalValue::Mapping(_)) {
        return Err(owned("locked package descriptor must be a map"));
    }
    let version = match required(descriptor, "version") {
        Ok(form) => form,
        Err(m) => return Err(m),
    };
    let version = match string_form(version, "locked package :version") {
        Ok(text) => text,
        Err(m) => return Err(m),
    };
    match parse_version(version.as_str()) {
        Ok(()) => {},
        Err(error) => {
            let mut m = owned("locked package ");
            push_str(&mut m, coordinate.as_str());
            push_str(&mut m, " has invalid version: ");
            push_str(&mut m, error.as_str());
            return Err(m);
        },
    }
    let archive = match required(descriptor, "archive-sha256") {
        Ok(form) => form,
        Err(m) => return Err(m),
    };
    let archive = match string_form(archive, "locked package :archive-sha256") {
        Ok(text) => text,
        Err(m) => return Err(m),
    };
    match validate_digest(archive.as_str(), "archive-sha256") {
        Ok(()) => {},
        Err(m) => return Err(m),
    }
    let tap = match required(descriptor, "tap") {
        Ok(form) => form,
        Err(m) => return Err(m),
    };
    let tap = match string_form(tap, "locked package :tap") {
        Ok(text) => text,
        Err(m) => return Err(m),
    };
    let repository = match required(descriptor, "oci/repository") {
        Ok(form) => form,
        Err(m) => return Err(m),
    };
    let repository = match string_form(repository, "locked package :oci/repository") {
        Ok(text) => text,
        Err(m) => return Err(m),
    };
    match validate_oci_repository(repository.as_str()) {
        Ok(()) => {},
        Err(m) => return Err(m),
    }
    let manifest = match required(descriptor, "oci/manifest") {
        Ok(form) => form,
        Err(m) => return Err(m),
    };
    let manifest = match string_form(manifest, "locked package :oci/manifest") {
        Ok(text) => text,
        Err(m) => return Err(m),
    };
    match validate_digest(manifest.as_str(), "oci/manifest") {
        Ok(()) => {},
        Err(m) => return Err(m),
    }
    let namespaces = match required(descriptor, "namespaces") {
        Ok(form) => form,
        Err(m) => return Err(m),
    };
    let namespaces = match symbols_form(namespaces, "locked package :namespaces") {
        Ok(set) => set,
        Err(m) => return Err(m),
    };
    if namespaces.len() == 0 {
        assert(namespaces@.to_set() =~= Set::<Seq<char>>::empty());
        let mut m = owned("locked package ");
        push_str(&mut m, coordinate.as_str());
        push_str(&mut m, " exports no namespaces");
        return Err(m);
    }
    proof {
        lemma_sorted_of(namespaces@);
        if namespaces@.to_set().len() == 0 {
            assert(namespaces@.to_set().contains(namespaces@[0]));
        }
    }
    let names = namespaces.items();
    let mut list: Vec<String> = Vec::new();
    let mut i: usize = 0;
    while i < names.len()
        invariant
            i <= names@.len(),
            names@.map_values(|s: String| s@) == namespaces@,
            list@.len() == i,
            forall|j: int| 0 <= j < i ==> list@[j] == names@[j],
        decreases names@.len() - i,
    {
        list.push(names[i].clone());
        i = i + 1;
    }
    let package = LockedPackage {
        coordinate,
        version,
        tap,
        oci_repository: repository,
        oci_manifest: manifest,
        archive_sha256: archive,
        namespaces: list,
    };
    assert(package_model(package).namespaces =~= namespaces@);
    Ok(package)
}

// ---------------------------------------------------------------------------
// The catalog
// ---------------------------------------------------------------------------

/// Reads the packages of `:packages` from `from` on, `found` holding those
/// before.
pub open spec fn packages_spec(entries: Seq<(HalValue, HalValue)>, from: int, found: Seq<PackageModel>) -> Result<Seq<PackageModel>, Seq<char>>
    decreases entries.len() - from,
{
    if from < 0 || from >= entries.len() {
        Ok(found)
    } else {
        match package_spec(entries[from].0, entries[from].1) {
            Err(m) => Err(m),
            Ok(package) => packages_spec(entries, from + 1, found.push(package)),
        }
    }
}

/// The first index, from `from` on, of a package whose coordinate sorts
/// after `coordinate`.
pub open spec fn first_after(sorted: Seq<PackageModel>, coordinate: Seq<char>, from: int) -> int
    decreases sorted.len() - from,
{
    if from < 0 || from >= sorted.len() {
        sorted.len() as int
    } else if text_less(coordinate, sorted[from].coordinate) {
        from
    } else {
        first_after(sorted, coordinate, from + 1)
    }
}

/// Packages ordered by coordinate; packages with equal coordinates keep
/// their order.
pub open spec fn sort_by_coordinate(packages: Seq<PackageModel>) -> Seq<PackageModel>
    decreases packages.len(),
{
    if packages.len() == 0 {
        packages
    } else {
        let sorted = sort_by_coordinate(packages.drop_last());
        sorted.insert(first_after(sorted, packages.last().coordinate, 0), packages.last())
    }
}

/// Each exported namespace with its package's coordinate, in package
/// order.
pub open spec fn export_pairs(packages: Seq<PackageModel>) -> Seq<(Seq<char>, Seq<char>)>
    decreases packages.len(),
{
    if packages.len() == 0 {
        Seq::empty()
    } else {
        export_pairs(packages.drop_last()) + packages.last().namespaces.map_values(
            |n: Seq<char>| (n, packages.last().coordinate),
        )
    }
}

/// The package that first exported a namespace.
pub open spec fn owner_of(owners: Seq<(Seq<char>, Seq<char>)>, namespace: Seq<char>) -> Option<Seq<char>>
    decreases owners.len(),
{
    if owners.len() == 0 {
        None
    } else if owners[0].0 == namespace {
        Some(owners[0].1)
    } else {
        owner_of(owners.drop_first(), namespace)
    }
}

/// The refusal of the first namespace, from `from` on, that an earlier
/// package already exports.
pub open spec fn first_conflict(pairs: Seq<(Seq<char>, Seq<char>)>, from: int, owners: Seq<(Seq<char>, Seq<char>)>) -> Option<Seq<char>>
    decreases pairs.len() - from,
{
    if from < 0 || from >= pairs.len() {
        None
    } else {
        match owner_of(owners, pairs[from].0) {
            Some(previous) => Some(
                "package/namespace-conflict: "@ + pairs[from].0 + " is exported by "@ + previous + " and "@
                    + pairs[from].1,
            ),
            None => first_conflict(pairs, from + 1, owners.push(pairs[from])),
        }
    }
}

/// What a lock document pins: format `0.0.1`, and the packages of
/// `:packages` ordered by coordinate, no namespace exported twice.
pub open spec fn catalog_spec(document: HalValue) -> Result<Seq<PackageModel>, Seq<char>> {
    if map_entries(document) is None {
        Err("project.lock.edn must be an EDN map"@)
    } else if !(field_value(document, "lock/format"@) matches Some(HalValue::String(format)) && format@ == "0.0.1"@) {
        Err("project.lock.edn requires :lock/format \"0.0.1\""@)
    } else {
        match field_value(document, "packages"@) {
            None => Ok(Seq::empty()),
            Some(packages) => match map_entries(packages) {
                None => Err("project.lock.edn :packages must be a map"@),
                Some(entries) => match packages_spec(entries, 0, Seq::empty()) {
                    Err(m) => Err(m),
                    Ok(found) => {
                        let sorted = sort_by_coordinate(found);
                        match first_conflict(export_pairs(sorted), 0, Seq::empty()) {
                            Some(m) => Err(m),
                            None => Ok(sorted),
                        }
                    },
                },
            },
        }
    }
}

pub open spec fn models(packages: Seq<LockedPackage>) -> Seq<PackageModel> {
    packages.map_values(|p: LockedPackage| package_model(p))
}

pub open spec fn catalog_result(r: Result<Vec<LockedPackage>, String>) -> Result<Seq<PackageModel>, Seq<char>> {
    match r {
        Ok(packages) => Ok(models(packages@)),
        Err(m) => Err(m@),
    }
}

fn insert_by_coordinate(sorted: &mut Vec<LockedPackage>, package: LockedPackage)
    ensures
        models(final(sorted)@) == models(old(sorted)@).insert(
            first_after(models(old(sorted)@), package.coordinate@, 0),
            package_model(package),
        ),
{
    let ghost before = models(sorted@);
    let mut k: usize = 0;
    while k < sorted.len() && !text_before(package.coordinate.as_str(), sorted[k].coordinate.as_str())
        invariant
            k <= sorted@.len(),
            before == models(sorted@),
            first_after(before, package.coordinate@, 0) == first_after(before, package.coordinate@, k as int),
        decreases sorted@.len() - k,
    {
        k = k + 1;
    }
    let ghost expected = before.insert(k as int, package_model(package));
    sorted.insert(k, package);
    assert(models(sorted@) =~= expected);
}

fn pairs_of(sorted: &Vec<LockedPackage>) -> (pairs: Vec<(String, String)>)
    ensures
        pairs@.map_values(|p: (String, String)| (p.0@, p.1@)) == export_pairs(models(sorted@)),
{
    let mut pairs: Vec<(String, String)> = Vec::new();
    let mut k: usize = 0;
    assert(models(sorted@).take(0) =~= Seq::<PackageModel>::empty());
    assert(pairs@.map_values(|p: (String, String)| (p.0@, p.1@)) =~= export_pairs(models(sorted@).take(0)));
    while k < sorted.len()
        invariant
            k <= sorted@.len(),
            pairs@.map_values(|p: (String, String)| (p.0@, p.1@)) == export_pairs(models(sorted@).take(k as int)),
        decreases sorted@.len() - k,
    {
        let package = &sorted[k];
        let ghost start = pairs@.map_values(|p: (String, String)| (p.0@, p.1@));
        let ghost names = package_model(*package).namespaces;
        let mut j: usize = 0;
        while j < package.namespaces.len()
            invariant
                j <= package.namespaces@.len(),
                names == package.namespaces@.map_values(|s: String| s@),
                pairs@.map_values(|p: (String, String)| (p.0@, p.1@)) == start + names.take(j as int).map_values(
                    |n: Seq<char>| (n, package.coordinate@),
                ),
            decreases package.namespaces@.len() - j,
        {
            let ghost before = pairs@.map_values(|p: (String, String)| (p.0@, p.1@));
            pairs.push((package.namespaces[j].clone(), package.coordinate.clone()));
            assert(pairs@.map_values(|p: (String, String)| (p.0@, p.1@)) =~= before.push(
                (names[j as int], package.coordinate@),
            ));
            assert(names.take(j + 1).map_values(|n: Seq<char>| (n, package.coordinate@)) =~= names.take(
                j as int,
            ).map_values(|n: Seq<char>| (n, package.coordinate@)).push((names[j as int], package.coordinate@)));
            j = j + 1;
        }
        proof {
            let taken = models(sorted@).take(k + 1);
            assert(taken.drop_last() =~= models(sorted@).take(k as int));
            assert(taken.last() == package_model(*package));
            assert(names.take(j as int) =~= names);
        }
        k = k + 1;
    }
    assert(models(sorted@).take(k as int) =~= models(sorted@));
    pairs
}

fn find_owner(owners: &Vec<(String, String)>, namespace: &str) -> (r: Option<usize>)
    ensures
        match r {
            Some(i) => i < owners@.len() && owner_of(owners@.map_values(|p: (String, String)| (p.0@, p.1@)), namespace@)
                == Some(owners@[i as int].1@),
            None => owner_of(owners@.map_values(|p: (String, String)| (p.0@, p.1@)), namespace@) is None,
        },
{
    let ghost all = owners@.map_values(|p: (String, String)| (p.0@, p.1@));
    assert(all.skip(0) =~= all);
    let mut i: usize = 0;
    while i < owners.len()
        invariant
            i <= owners@.len(),
            all == owners@.map_values(|p: (String, String)| (p.0@, p.1@)),
            owner_of(all, namespace@) == owner_of(all.skip(i as int), namespace@),
        decreases owners@.len() - i,
    {
        assert(all.skip(i as int).drop_first() =~= all.skip(i + 1));
        if crate::text::same_text(owners[i].0.as_str(), namespace) {
            return Some(i);
        }
        i = i + 1;
    }
    None
}

/// Reads the package catalog from a lock document.
pub fn catalog_from_document(document: &HalValue) -> (r: Result<Vec<LockedPackage>, String>)
    ensures
        catalog_result(r) == catalog_spec(*document),
{
    if !matches!(document, HalValue::Mapping(_)) {
        return Err(owned("project.lock.edn must be an EDN map"));
    }
    let format_ok = match field(document, "lock/format") {
        Some(HalValue::String(format)) => crate::text::same_text(format.as_str(), "0.0.1"),
        _ => false,
    };
    if !format_ok {
        return Err(owned("project.lock.edn requires :lock/format \"0.0.1\""));
    }
    let packages = match field(document, "packages") {
        Some(packages) => packages,
        None => {
            let empty: Vec<LockedPackage> = Vec::new();
            assert(models(empty@) =~= Seq::<PackageModel>::empty());
            return Ok(empty);
        },
    };
    let entries = match packages {
        HalValue::Mapping(entries) => entries,
        _ => return Err(owned("project.lock.edn :packages must be a map")),
    };
    let mut sorted: Vec<LockedPackage> = Vec::new();
    let ghost mut found: Seq<PackageModel> = Seq::empty();
    assert(models(sorted@) =~= sort_by_coordinate(found));
    let mut i: usize = 0;
    while i < entries.len()
        invariant
            i <= entries@.len(),
            catalog_spec(*document) == match packages_spec(entries@, 0, Seq::empty()) {
                Err(m) => Err(m),
                Ok(found) => {
                    let sorted = sort_by_coordinate(found);
                    match first_conflict(export_pairs(sorted), 0, Seq::empty()) {
                        Some(m) => Err(m),
                        None => Ok(sorted),
                    }
                },
            },
            packages_spec(entries@, 0, Seq::empty()) == packages_spec(entries@, i as int, found),
            models(sorted@) == sort_by_coordinate(found),
        decreases entries@.len() - i,
    {
        let package = match read_package(&entries[i].0, &entries[i].1) {
            Ok(package) => package,
            Err(m) => return Err(m),
        };
        proof {
            assert(found.push(package_model(package)).drop_last() =~= found);
            found = found.push(package_model(package));
        }
        insert_by_coordinate(&mut sorted, package);
        i = i + 1;
    }
    let pairs = pairs_of(&sorted);
    let ghost all = pairs@.map_values(|p: (String, String)| (p.0@, p.1@));
    let mut owners: Vec<(String, String)> = Vec::new();
    let mut k: usize = 0;
    assert(owners@.map_values(|p: (String, String)| (p.0@, p.1@)) =~= Seq::<(Seq<char>, Seq<char>)>::empty());
    while k < pairs.len()
        invariant
            k <= pairs@.len(),
            all == pairs@.map_values(|p: (String, String)| (p.0@, p.1@)),
            all == export_pairs(models(sorted@)),
            catalog_spec(*document) == match first_conflict(all, 0, Seq::empty()) {
                Some(m) => Err(m),
                None => Ok(models(sorted@)),
            },
            first_conflict(all, 0, Seq::empty()) == first_conflict(
                all,
                k as int,
                owners@.map_values(|p: (String, String)| (p.0@, p.1@)),
            ),
        decreases pairs@.len() - k,
    {
        match find_owner(&owners, pairs[k].0.as_str()) {
            Some(index) => {
                let mut m = owned("package/namespace-conflict: ");
                push_str(&mut m, pairs[k].0.as_str());
                push_str(&mut m, " is exported by ");
                push_str(&mut m, owners[index].1.as_str());
                push_str(&mut m, " and ");
                push_str(&mut m, pairs[k].1.as_str());
                return Err(m);
            },
            None => {
                let ghost before = owners@.map_values(|p: (String, String)| (p.0@, p.1@));
                owners.push((pairs[k].0.clone(), pairs[k].1.clone()));
                assert(owners@.map_values(|p: (String, String)| (p.0@, p.1@)) =~= before.push(all[k as int]));
            },
        }
        k = k + 1;
    }
    Ok(sorted)
}

proof fn lemma_owner_of_push(owners: Seq<(Seq<char>, Seq<char>)>, pair: (Seq<char>, Seq<char>), namespace: Seq<char>)
    ensures
        owner_of(owners.push(pair), namespace) is None <==> (owner_of(owners, namespace) is None
            && pair.0 != namespace),
    decreases owners.len(),
{
    let pushed = owners.push(pair);
    if owners.len() > 0 {
        assert(pushed[0] == owners[0]);
        assert(pushed.drop_first() =~= owners.drop_first().push(pair));
        lemma_owner_of_push(owners.drop_first(), pair, namespace);
    } else {
        assert(pushed[0] == pair);
        assert(pushed.drop_first() =~= Seq::<(Seq<char>, Seq<char>)>::empty());
        assert(owner_of(pushed.drop_first(), namespace) is None);
    }
}

proof fn lemma_no_conflict(pairs: Seq<(Seq<char>, Seq<char>)>, from: int, owners: Seq<(Seq<char>, Seq<char>)>, k: int)
    requires
        0 <= from <= k < pairs.len(),
        first_conflict(pairs, from, owners) is None,
    ensures
        owner_of(owners, pairs[k].0) is None,
        forall|m: int| from <= m < k ==> pairs[m].0 != pairs[k].0,
    decreases k - from,
{
    if from < k {
        lemma_no_conflict(pairs, from + 1, owners.push(pairs[from]), k);
        lemma_owner_of_push(owners, pairs[from], pairs[k].0);
    }
}

/// An accepted catalog exports each namespace from one package only: no
/// namespace occurs twice among its (namespace, package) pairs.
pub proof fn law_namespaces_have_one_owner(document: HalValue, packages: Seq<PackageModel>, a: int, b: int)
    requires
        catalog_spec(document) == Ok::<Seq<PackageModel>, Seq<char>>(packages),
        0 <= a < b < export_pairs(packages).len(),
    ensures
        export_pairs(packages)[a].0 != export_pairs(packages)[b].0,
{
    lemma_no_conflict(export_pairs(packages), 0, Seq::empty(), b);
}

/// No coordinate sorts before an earlier one.
pub open spec fn ordered_by_coordinate(packages: Seq<PackageModel>) -> bool {
    forall|i: int, j: int|
        0 <= i < j < packages.len() ==> !text_less(#[trigger] packages[j].coordinate, #[trigger] packages[i].coordinate)
}

proof fn lemma_first_after(sorted: Seq<PackageModel>, coordinate: Seq<char>, from: int)
    requires
        0 <= from <= sorted.len(),
    ensures
        from <= first_after(sorted, coordinate, from) <= sorted.len(),
        forall|m: int| from <= m < first_after(sorted, coordinate, from) ==> !text_less(coordinate, #[trigger] sorted[m].coordinate),
        first_after(sorted, coordinate, from) < sorted.len() ==> text_less(
            coordinate,
            sorted[first_after(sorted, coordinate, from)].coordinate,
        ),
    decreases sorted.len() - from,
{
    if from < sorted.len() && !text_less(coordinate, sorted[from].coordinate) {
        lemma_first_after(sorted, coordinate, from + 1);
    }
}

proof fn lemma_sorted_by_coordinate(packages: Seq<PackageModel>)
    ensures
        ordered_by_coordinate(sort_by_coordinate(packages)),
    decreases packages.len(),
{
    if packages.len() > 0 {
        let sorted = sort_by_coordinate(packages.drop_last());
        lemma_sorted_by_coordinate(packages.drop_last());
        let x = packages.last();
        let p = first_after(sorted, x.coordinate, 0);
        lemma_first_after(sorted, x.coordinate, 0);
        let result = sorted.insert(p, x);
        assert forall|i: int, j: int| 0 <= i < j < result.len() implies !text_less(
            #[trigger] result[j].coordinate,
            #[trigger] result[i].coordinate,
        ) by {
            if j < p {
                assert(result[i] == sorted[i] && result[j] == sorted[j]);
            } else if j == p {
                assert(result[i] == sorted[i] && result[j] == x);
                assert(!text_less(x.coordinate, sorted[i].coordinate));
            } else if i < p {
                assert(result[i] == sorted[i] && result[j] == sorted[j - 1]);
            } else if i == p {
                assert(result[i] == x && result[j] == sorted[j - 1]);
                let e = sorted[p].coordinate;
                let f = sorted[j - 1].coordinate;
                assert(text_less(x.coordinate, e));
                if j - 1 > p {
                    assert(!text_less(f, e));
                    lemma_less_total(e, f);
                    if text_less(e, f) {
                        lemma_less_transitive(x.coordinate, e, f);
                    }
                }
                lemma_less_asymmetric(x.coordinate, f);
            } else {
                assert(result[i] == sorted[i - 1] && result[j] == sorted[j - 1]);
            }
        }
    }
}

/// An accepted catalog is ordered by coordinate.
pub proof fn law_catalog_is_ordered(document: HalValue, packages: Seq<PackageModel>)
    requires
        catalog_spec(document) == Ok::<Seq<PackageModel>, Seq<char>>(packages),
    ensures
        ordered_by_coordinate(packages),
{
    let entries = map_entries(field_value(document, "packages"@)->Some_0);
    if field_value(document, "packages"@) is None {
    } else {
        let found = packages_spec(entries->Some_0, 0, Seq::empty())->Ok_0;
        lemma_sorted_by_coordinate(found);
    }
}

} // verus!
