//! From a registry's answer to a release history.
//!
//! The five registries differ in where a package is asked for, in how they
//! write publication times, and in what else they list beside versions. The
//! times are parsed by the `chrono` crate; everything else is decided here.

use crate::champion::{is_champion, none_eligible, select_champion};
use crate::instant::Instant;
use crate::release::{Release, ReleaseView};
use vstd::prelude::*;
use vstd::string::*;

verus! {

/// The package managers whose registries can be asked.
#[derive(Clone, Copy, Debug, PartialEq, Eq, Structural)]
pub enum Manager {
    Pip,
    Npm,
    Cargo,
    Gem,
    Composer,
}

/// One entry of a registry's answer: a key, and the publication time as the
/// registry wrote it. The time is absent where the registry lists a version
/// without any file.
#[derive(Clone, Debug, PartialEq, Eq)]
pub struct RawRelease {
    pub version: String,
    pub time: Option<String>,
}

/// The mathematical value of a [`RawRelease`].
pub struct RawReleaseView {
    pub version: Seq<char>,
    pub time: Option<Seq<char>>,
}

impl View for RawRelease {
    type V = RawReleaseView;

    open spec fn view(&self) -> RawReleaseView {
        RawReleaseView {
            version: self.version@,
            time: match self.time {
                Some(text) => Some(text@),
                None => None,
            },
        }
    }
}

impl DeepView for RawRelease {
    type V = RawReleaseView;

    open spec fn deep_view(&self) -> RawReleaseView {
        self@
    }
}

/// The layout of the times that PyPI writes: a date and a time of day without
/// an offset, meant as UTC.
pub const PIP_TIME_LAYOUT: &'static str = "%Y-%m-%dT%H:%M:%S";

/// The layout of a cutoff date.
pub const DATE_LAYOUT: &'static str = "%Y-%m-%d";

/// The last second of a day, counted from its midnight.
pub const LAST_SECOND_OF_DAY: i64 = 86_399;

/// The instant that `chrono` reads from an RFC 3339 date and time, or nothing
/// where it rejects the text.
pub uninterp spec fn rfc3339_instant(text: Seq<char>) -> Option<Instant>;

/// The instant that `chrono` reads from a date and time of day written in the
/// layout and taken as UTC, or nothing where it rejects the text or the
/// layout.
pub uninterp spec fn naive_utc_instant(text: Seq<char>, layout: Seq<char>) -> Option<Instant>;

/// The midnight, in seconds since the Unix epoch, of the calendar date that
/// `chrono` reads from a text written in the layout, or nothing where it
/// rejects the text or the layout.
pub uninterp spec fn date_midnight(text: Seq<char>, layout: Seq<char>) -> Option<i64>;

/// Calls `chrono::DateTime::parse_from_rfc3339` and takes the result to UTC
/// with `DateTime::with_timezone`.
///
/// Trusted: the result is a function of the text alone. It is given by
/// `DateTime::timestamp` and `DateTime::timestamp_subsec_nanos`, which order
/// instants as `chrono` orders its `DateTime` values.
#[verifier::external_body]
fn parse_rfc3339(text: &str) -> (r: Option<Instant>)
    ensures
        r == rfc3339_instant(text@),
{
    match chrono::DateTime::parse_from_rfc3339(text) {
        Ok(parsed) => {
            let utc = parsed.with_timezone(&chrono::Utc);
            Some(Instant { secs: utc.timestamp(), nanos: utc.timestamp_subsec_nanos() })
        },
        Err(_) => None,
    }
}

/// Calls `chrono::NaiveDateTime::parse_from_str` and reads the result as UTC
/// with `DateTime::from_naive_utc_and_offset`.
///
/// Trusted: the result is a function of the text and the layout alone. It is
/// given by `DateTime::timestamp` and `DateTime::timestamp_subsec_nanos`.
#[verifier::external_body]
fn parse_naive_utc(text: &str, layout: &str) -> (r: Option<Instant>)
    ensures
        r == naive_utc_instant(text@, layout@),
{
    match chrono::NaiveDateTime::parse_from_str(text, layout) {
        Ok(naive) => {
            let utc = chrono::DateTime::<chrono::Utc>::from_naive_utc_and_offset(naive, chrono::Utc);
            Some(Instant { secs: utc.timestamp(), nanos: utc.timestamp_subsec_nanos() })
        },
        Err(_) => None,
    }
}

/// Calls `chrono::NaiveDate::parse_from_str` and gives the midnight that
/// begins the date, in UTC.
///
/// Trusted: the result is a function of the text and the layout alone. It is
/// the `DateTime::timestamp` of the date at `NaiveTime::MIN`.
#[verifier::external_body]
fn parse_date_midnight(text: &str, layout: &str) -> (r: Option<i64>)
    ensures
        r == date_midnight(text@, layout@),
{
    match chrono::NaiveDate::parse_from_str(text, layout) {
        Ok(date) => Some(date.and_time(chrono::NaiveTime::MIN).and_utc().timestamp()),
        Err(_) => None,
    }
}

/// The cutoff that stands for a whole day: its last second, so that every
/// release of that day is at or before it. Absent where that second is out
/// of range.
pub open spec fn end_of_day(midnight: i64) -> Option<Instant> {
    if midnight + LAST_SECOND_OF_DAY <= i64::MAX {
        Some(Instant { secs: (midnight + LAST_SECOND_OF_DAY) as i64, nanos: 0 })
    } else {
        None
    }
}

/// The cutoff that stands for the day that begins at `midnight`.
pub fn cutoff_of_day(midnight: i64) -> (r: Option<Instant>)
    ensures
        r == end_of_day(midnight),
{
    match midnight.checked_add(LAST_SECOND_OF_DAY) {
        Some(secs) => Some(Instant { secs, nanos: 0 }),
        None => None,
    }
}

/// The cutoff that a calendar date stands for.
pub open spec fn cutoff_of_date(date: Seq<char>) -> Option<Instant> {
    match date_midnight(date, DATE_LAYOUT@) {
        Some(midnight) => end_of_day(midnight),
        None => None,
    }
}

/// Reads a calendar date, written as year, month and day, as a cutoff: the
/// last second of that day in UTC. Absent where the text is no such date.
pub fn parse_cutoff(date: &str) -> (r: Option<Instant>)
    ensures
        r == cutoff_of_date(date@),
{
    match parse_date_midnight(date, DATE_LAYOUT) {
        Some(midnight) => cutoff_of_day(midnight),
        None => None,
    }
}

/// What a registry's publication time stands for: PyPI writes times without
/// an offset, the other registries write RFC 3339.
pub open spec fn published_instant(manager: Manager, text: Seq<char>) -> Option<Instant> {
    match manager {
        Manager::Pip => naive_utc_instant(text, PIP_TIME_LAYOUT@),
        _ => rfc3339_instant(text),
    }
}

/// Reads a publication time as the registry of `manager` writes it.
pub fn parse_published(manager: Manager, text: &str) -> (r: Option<Instant>)
    ensures
        r == published_instant(manager, text@),
{
    match manager {
        Manager::Pip => parse_naive_utc(text, PIP_TIME_LAYOUT),
        _ => parse_rfc3339(text),
    }
}

/// The keys that a registry lists beside its versions: npm records when the
/// package was created and last modified under two keys of their own.
pub open spec fn is_bookkeeping_key(manager: Manager, key: Seq<char>) -> bool {
    manager == Manager::Npm && (key == "created"@ || key == "modified"@)
}

/// Whether the key is one that the registry lists beside its versions.
pub fn bookkeeping_key(manager: Manager, key: &String) -> (r: bool)
    ensures
        r == is_bookkeeping_key(manager, key@),
{
    match manager {
        Manager::Npm => *key == String::from_str("created") || *key == String::from_str(
            "modified",
        ),
        _ => false,
    }
}

/// The release that an entry stands for, given what its time was read as:
/// none for a bookkeeping key, and none where the time could not be read.
pub open spec fn release_of(manager: Manager, key: Seq<char>, published: Option<Instant>) -> Option<
    ReleaseView,
> {
    match published {
        Some(published_at) if !is_bookkeeping_key(manager, key) => Some(
            ReleaseView { version: key, published_at },
        ),
        _ => None,
    }
}

/// The release that an entry stands for, given what its time was read as.
pub fn release_from_entry(manager: Manager, key: &String, published: Option<Instant>) -> (r: Option<
    Release,
>)
    ensures
        r.deep_view() == release_of(manager, key@, published),
{
    if bookkeeping_key(manager, key) {
        return None;
    }
    match published {
        Some(published_at) => Some(Release { version: key.clone(), published_at }),
        None => None,
    }
}

/// The release that a registry's entry stands for.
pub open spec fn entry_release(manager: Manager, entry: RawReleaseView) -> Option<ReleaseView> {
    release_of(
        manager,
        entry.version,
        match entry.time {
            Some(text) => published_instant(manager, text),
            None => None,
        },
    )
}

/// The release history in a registry's answer: the releases that its entries
/// stand for, in the order of the answer.
pub open spec fn collected(manager: Manager, entries: Seq<RawReleaseView>) -> Seq<ReleaseView> {
    entries.filter_map(|entry: RawReleaseView| entry_release(manager, entry))
}

/// Turns a registry's answer into a release history, in the order of the
/// answer. Entries without a time, with a time that cannot be read, or under
/// a bookkeeping key are left out.
pub fn collect_releases(manager: Manager, entries: &Vec<RawRelease>) -> (r: Vec<Release>)
    ensures
        r.deep_view() == collected(manager, entries.deep_view()),
{
    let ghost raw = entries.deep_view();
    let ghost each = |entry: RawReleaseView| entry_release(manager, entry);
    let mut out: Vec<Release> = Vec::new();
    let mut i: usize = 0;
    assert(out.deep_view() =~= raw.take(0).filter_map(each));
    while i < entries.len()
        invariant
            i <= entries.len(),
            raw == entries.deep_view(),
            each == |entry: RawReleaseView| entry_release(manager, entry),
            out.deep_view() == raw.take(i as int).filter_map(each),
        decreases entries.len() - i,
    {
        let entry = &entries[i];
        assert(raw[i as int] == entry@);
        let published = match &entry.time {
            Some(text) => parse_published(manager, text.as_str()),
            None => None,
        };
        let ghost before = out.deep_view();
        proof {
            raw.lemma_filter_map_take_succ(each, i as int);
        }
        match release_from_entry(manager, &entry.version, published) {
            Some(release) => {
                out.push(release);
                assert(out.deep_view() =~= before + seq![release@]);
            },
            None => {
                assert(out.deep_view() =~= before + Seq::<ReleaseView>::empty());
            },
        }
        i += 1;
    }
    assert(raw.take(i as int) =~= raw);
    out
}

/// The newest release in a registry's answer that was published at or before
/// the cutoff, if there is one.
pub fn find_version(manager: Manager, entries: &Vec<RawRelease>, cutoff: Instant) -> (r: Option<
    Release,
>)
    ensures
        match r {
            Some(release) => exists|i: int|
                is_champion(collected(manager, entries.deep_view()), cutoff, i) && collected(
                    manager,
                    entries.deep_view(),
                )[i] == release@,
            None => none_eligible(collected(manager, entries.deep_view()), cutoff),
        },
{
    let timeline = collect_releases(manager, entries);
    select_champion(&timeline, cutoff)
}

/// Where the registry of `manager` answers for a package.
pub open spec fn registry_url_text(manager: Manager, package: Seq<char>) -> Seq<char> {
    match manager {
        Manager::Pip => "https://pypi.org/pypi/"@ + package + "/json"@,
        Manager::Npm => "https://registry.npmjs.org/"@ + package,
        Manager::Cargo => "https://crates.io/api/v1/crates/"@ + package,
        Manager::Gem => "https://rubygems.org/api/v1/versions/"@ + package + ".json"@,
        Manager::Composer => "https://packagist.org/packages/"@ + package + ".json"@,
    }
}

/// What the user is told where the registry of `manager` does not know a
/// package.
pub open spec fn not_found_text(manager: Manager) -> Seq<char> {
    match manager {
        Manager::Pip => "Package not found on PyPI"@,
        Manager::Npm => "Package not found on NPM"@,
        Manager::Cargo => "Crate not found on Crates.io"@,
        Manager::Gem => "Gem not found on RubyGems"@,
        Manager::Composer => "Package not found on Packagist (ensure 'vendor/package' format)"@,
    }
}

/// The address at which the registry of `manager` answers for `package`.
pub fn registry_url(manager: Manager, package: &str) -> (r: String)
    ensures
        r@ == registry_url_text(manager, package@),
{
    match manager {
        Manager::Pip => {
            let mut url = String::from_str("https://pypi.org/pypi/");
            url.append(package);
            url.append("/json");
            url
        },
        Manager::Npm => {
            let mut url = String::from_str("https://registry.npmjs.org/");
            url.append(package);
            url
        },
        Manager::Cargo => {
            let mut url = String::from_str("https://crates.io/api/v1/crates/");
            url.append(package);
            url
        },
        Manager::Gem => {
            let mut url = String::from_str("https://rubygems.org/api/v1/versions/");
            url.append(package);
            url.append(".json");
            url
        },
        Manager::Composer => {
            let mut url = String::from_str("https://packagist.org/packages/");
            url.append(package);
            url.append(".json");
            url
        },
    }
}

/// What the user is told where the registry of `manager` does not know a
/// package.
pub fn not_found_message(manager: Manager) -> (r: String)
    ensures
        r@ == not_found_text(manager),
{
    match manager {
        Manager::Pip => String::from_str("Package not found on PyPI"),
        Manager::Npm => String::from_str("Package not found on NPM"),
        Manager::Cargo => String::from_str("Crate not found on Crates.io"),
        Manager::Gem => String::from_str("Gem not found on RubyGems"),
        Manager::Composer => String::from_str(
            "Package not found on Packagist (ensure 'vendor/package' format)",
        ),
    }
}

} // verus!
