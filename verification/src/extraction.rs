//! The published indexes of Chrome for Testing builds, and the searches and
//! listings made on them.

use vstd::prelude::*;
use crate::table::KeyedTable;
use crate::text::{lowercase, str_equals, to_lowercase};

verus! {

/// One downloadable archive: the platform it is built for and where it is.
#[derive(Debug)]
pub struct Download {
    pub platform: String,
    pub url: String,
}

/// The latest build of one release channel.
#[derive(Debug)]
pub struct ChanelObject {
    pub channel: String,
    pub version: String,
    pub revision: String,
    /// The archives of each binary, by the binary's name.
    pub downloads: KeyedTable<Vec<Download>>,
}

/// The index of the last known good build of each release channel.
#[derive(Debug)]
pub struct ApiResponseLtsKnow {
    /// The channels, by name (`Stable`, `Beta`, `Dev`, `Canary`).
    pub channels: KeyedTable<ChanelObject>,
}

/// One known good version.
#[derive(Debug)]
pub struct GoodKnowVersions {
    pub version: String,
    pub revision: String,
    /// The archives of each binary, by the binary's name.
    pub downloads: KeyedTable<Vec<Download>>,
}

/// The index of all known good versions.
#[derive(Debug)]
pub struct ApiResponseVersions {
    pub versions: Vec<GoodKnowVersions>,
}

/// Why a search in an index found no archive.
#[derive(Debug)]
pub enum SearchError {
    /// The index of known good versions does not hold the version.
    VersionNotFound { version: String },
    /// The version holds no archive of the binary for the platform.
    DownloadNotFound { platform: String, type_of_chrome: String, version: String },
    /// The channel is missing, or holds no archive of the binary for the platform.
    ChannelDownloadNotFound { platform: String, type_of_chrome: String, channel: String },
}

/// The text that describes each search error.
pub open spec fn search_error_text(e: SearchError) -> Seq<char> {
    match e {
        SearchError::VersionNotFound { version } => "Error: Version "@ + version@
            + " not found in the know good versions"@,
        SearchError::DownloadNotFound { platform, type_of_chrome, version } =>
            "Error: Download not found for platform "@ + platform@ + " and type "@
            + type_of_chrome@ + " in version "@ + version@,
        SearchError::ChannelDownloadNotFound { platform, type_of_chrome, channel } =>
            "Error: Download not found for platform "@ + platform@ + " and type "@
            + type_of_chrome@ + " in channel "@ + channel@,
    }
}

impl SearchError {
    /// The text that describes this error.
    pub fn message(&self) -> (res: String)
        ensures
            res@ == search_error_text(*self),
    {
        match self {
            SearchError::VersionNotFound { version } => {
                let mut res = String::from_str("Error: Version ");
                res.append(version.as_str());
                res.append(" not found in the know good versions");
                res
            },
            SearchError::DownloadNotFound { platform, type_of_chrome, version } => {
                let mut res = String::from_str("Error: Download not found for platform ");
                res.append(platform.as_str());
                res.append(" and type ");
                res.append(type_of_chrome.as_str());
                res.append(" in version ");
                res.append(version.as_str());
                res
            },
            SearchError::ChannelDownloadNotFound { platform, type_of_chrome, channel } => {
                let mut res = String::from_str("Error: Download not found for platform ");
                res.append(platform.as_str());
                res.append(" and type ");
                res.append(type_of_chrome.as_str());
                res.append(" in channel ");
                res.append(channel.as_str());
                res
            },
        }
    }
}

/// The first archive in `downloads` built for `platform`.
pub open spec fn first_for_platform(downloads: Seq<Download>, platform: Seq<char>) -> Option<
    Download,
>
    decreases downloads.len(),
{
    if downloads.len() == 0 {
        None
    } else if downloads[0].platform@ == platform {
        Some(downloads[0])
    } else {
        first_for_platform(downloads.drop_first(), platform)
    }
}

/// The archive of binary `binary` for `platform` among the archives of a build.
pub open spec fn archive_for(
    downloads: Map<Seq<char>, Vec<Download>>,
    binary: Seq<char>,
    platform: Seq<char>,
) -> Option<Download> {
    if downloads.contains_key(binary) {
        first_for_platform(downloads[binary]@, platform)
    } else {
        None
    }
}

/// The first entry of the index that is the version `version`.
pub open spec fn first_with_version(versions: Seq<GoodKnowVersions>, version: Seq<char>) -> Option<
    GoodKnowVersions,
>
    decreases versions.len(),
{
    if versions.len() == 0 {
        None
    } else if versions[0].version@ == version {
        Some(versions[0])
    } else {
        first_with_version(versions.drop_first(), version)
    }
}

/// What a search for a version gives: the version and the archive's address,
/// or the error that says what was missing.
pub open spec fn version_search_result(
    response: ApiResponseVersions,
    platform: Seq<char>,
    version: Seq<char>,
    binary: Seq<char>,
    res: Result<(String, String), SearchError>,
) -> bool {
    match first_with_version(response.versions@, version) {
        None => res matches Err(SearchError::VersionNotFound { version: v }) && v@ == version,
        Some(entry) => match archive_for(entry.downloads@, binary, platform) {
            Some(d) => res matches Ok((v, url)) && v@ == entry.version@ && url@ == d.url@,
            None => res matches Err(SearchError::DownloadNotFound { platform: p, type_of_chrome: t, version: v })
                && p@ == platform && t@ == binary && v@ == version,
        },
    }
}

/// What a search for a channel gives: the channel's version and the
/// archive's address, or the error that says what was missing.
pub open spec fn channel_search_result(
    response: ApiResponseLtsKnow,
    platform: Seq<char>,
    channel: Seq<char>,
    binary: Seq<char>,
    res: Result<(String, String), SearchError>,
) -> bool {
    if response.channels@.contains_key(channel) && archive_for(
        response.channels@[channel].downloads@,
        binary,
        platform,
    ) is Some {
        res matches Ok((v, url)) && v@ == response.channels@[channel].version@ && url@
            == archive_for(response.channels@[channel].downloads@, binary, platform)->0.url@
    } else {
        res matches Err(SearchError::ChannelDownloadNotFound { platform: p, type_of_chrome: t, channel: c })
            && p@ == platform && t@ == binary && c@ == channel
    }
}

/// The first archive in `downloads` built for `platform`.
pub fn find_download<'a>(downloads: &'a Vec<Download>, platform: &str) -> (res: Option<
    &'a Download,
>)
    ensures
        match res {
            Some(d) => first_for_platform(downloads@, platform@) == Some(*d),
            None => first_for_platform(downloads@, platform@) == None::<Download>,
        },
{
    let n = downloads.len();
    let mut i: usize = 0;
    assert(downloads@.skip(0) =~= downloads@);
    while i < n
        invariant
            n == downloads@.len(),
            i <= n,
            first_for_platform(downloads@, platform@) == first_for_platform(
                downloads@.skip(i as int),
                platform@,
            ),
        decreases n - i,
    {
        assert(downloads@.skip(i as int)[0] == downloads@[i as int]);
        assert(downloads@.skip(i as int).drop_first() =~= downloads@.skip(i + 1));
        if str_equals(downloads[i].platform.as_str(), platform) {
            return Some(&downloads[i]);
        }
        i = i + 1;
    }
    None
}

/// The archive of `binary` for `platform` among the archives of a build.
pub fn find_archive<'a>(
    downloads: &'a KeyedTable<Vec<Download>>,
    binary: &str,
    platform: &str,
) -> (res: Option<&'a Download>)
    ensures
        match res {
            Some(d) => archive_for(downloads@, binary@, platform@) == Some(*d),
            None => archive_for(downloads@, binary@, platform@) == None::<Download>,
        },
{
    match downloads.get(binary) {
        Some(platforms) => find_download(platforms, platform),
        None => None,
    }
}

/// The first entry of the index that is the version `version`.
pub fn find_version<'a>(versions: &'a Vec<GoodKnowVersions>, version: &str) -> (res: Option<
    &'a GoodKnowVersions,
>)
    ensures
        match res {
            Some(g) => first_with_version(versions@, version@) == Some(*g),
            None => first_with_version(versions@, version@) == None::<GoodKnowVersions>,
        },
{
    let n = versions.len();
    let mut i: usize = 0;
    assert(versions@.skip(0) =~= versions@);
    while i < n
        invariant
            n == versions@.len(),
            i <= n,
            first_with_version(versions@, version@) == first_with_version(
                versions@.skip(i as int),
                version@,
            ),
        decreases n - i,
    {
        assert(versions@.skip(i as int)[0] == versions@[i as int]);
        assert(versions@.skip(i as int).drop_first() =~= versions@.skip(i + 1));
        if str_equals(versions[i].version.as_str(), version) {
            return Some(&versions[i]);
        }
        i = i + 1;
    }
    None
}

/// Looks up `browser_version` in the index of known good versions and gives
/// that version with the address of its archive of `type_of_chrome` for `platform`.
pub fn search_values_for_specific_version(
    response: &ApiResponseVersions,
    platform: &str,
    browser_version: &str,
    type_of_chrome: &str,
) -> (res: Result<(String, String), SearchError>)
    ensures
        version_search_result(*response, platform@, browser_version@, type_of_chrome@, res),
{
    match find_version(&response.versions, browser_version) {
        None => Err(SearchError::VersionNotFound { version: String::from_str(browser_version) }),
        Some(entry) => match find_archive(&entry.downloads, type_of_chrome, platform) {
            Some(download) => Ok((entry.version.clone(), download.url.clone())),
            None => Err(
                SearchError::DownloadNotFound {
                    platform: String::from_str(platform),
                    type_of_chrome: String::from_str(type_of_chrome),
                    version: String::from_str(browser_version),
                },
            ),
        },
    }
}

/// Looks up the channel `browser_version` in the index of last known good
/// builds and gives the channel's version with the address of its archive of
/// `type_of_chrome` for `platform`.
pub fn search_values_for_lts_know(
    response: &ApiResponseLtsKnow,
    platform: &str,
    browser_version: &str,
    type_of_chrome: &str,
) -> (res: Result<(String, String), SearchError>)
    ensures
        channel_search_result(*response, platform@, browser_version@, type_of_chrome@, res),
{
    if let Some(channel) = response.channels.get(browser_version) {
        if let Some(download) = find_archive(&channel.downloads, type_of_chrome, platform) {
            return Ok((channel.version.clone(), download.url.clone()));
        }
    }
    Err(
        SearchError::ChannelDownloadNotFound {
            platform: String::from_str(platform),
            type_of_chrome: String::from_str(type_of_chrome),
            channel: String::from_str(browser_version),
        },
    )
}

/// A version found by a search is the version that was asked for.
pub proof fn lemma_version_search_finds_requested(versions: Seq<GoodKnowVersions>, version: Seq<char>)
    ensures
        first_with_version(versions, version) matches Some(entry) ==> entry.version@ == version,
    decreases versions.len(),
{
    if versions.len() > 0 && versions[0].version@ != version {
        lemma_version_search_finds_requested(versions.drop_first(), version);
    }
}

/// An archive found for a platform is built for that platform.
pub proof fn lemma_archive_matches_platform(downloads: Seq<Download>, platform: Seq<char>)
    ensures
        first_for_platform(downloads, platform) matches Some(d) ==> d.platform@ == platform,
    decreases downloads.len(),
{
    if downloads.len() > 0 && downloads[0].platform@ != platform {
        lemma_archive_matches_platform(downloads.drop_first(), platform);
    }
}

/// `s` padded with spaces on the right to at least `width` characters.
pub open spec fn padded_right(s: Seq<char>, width: nat) -> Seq<char> {
    if s.len() >= width {
        s
    } else {
        s + Seq::new((width - s.len()) as nat, |_i: int| ' ')
    }
}

/// The line that presents a channel: its lower-case name padded to six
/// characters, an arrow, its name and its version.
pub open spec fn channel_line_text(lowered: Seq<char>, name: Seq<char>, version: Seq<char>) -> Seq<
    char,
> {
    padded_right(lowered, 6) + " -> "@ + name + " (v"@ + version + ")"@
}

/// The release channels, in the order in which they are listed.
pub open spec fn channel_names() -> Seq<Seq<char>> {
    seq!["Stable"@, "Beta"@, "Dev"@, "Canary"@]
}

/// The lines that present those of `names` that the index holds, in order.
pub open spec fn channel_lines(channels: Map<Seq<char>, ChanelObject>, names: Seq<Seq<char>>) -> Seq<
    Seq<char>,
>
    decreases names.len(),
{
    if names.len() == 0 {
        seq![]
    } else {
        let name = names.last();
        let earlier = channel_lines(channels, names.drop_last());
        if channels.contains_key(name) {
            earlier.push(channel_line_text(lowercase(name), name, channels[name].version@))
        } else {
            earlier
        }
    }
}

/// The line that presents a channel, from its lower-case name, its name and its version.
pub fn channel_line(lowered: &str, name: &str, version: &str) -> (res: String)
    ensures
        res@ == channel_line_text(lowered@, name@, version@),
{
    let mut res = String::from_str(lowered);
    let mut width: usize = lowered.unicode_len();
    while width < 6
        invariant
            lowered@.len() <= width <= 6 || (width == lowered@.len() && width >= 6),
            res@ == lowered@ + Seq::new((width - lowered@.len()) as nat, |_i: int| ' '),
        decreases 6 - width,
    {
        proof {
            reveal_strlit(" ");
        }
        res.append(" ");
        width = width + 1;
        assert(res@ =~= lowered@ + Seq::new((width - lowered@.len()) as nat, |_i: int| ' '));
    }
    assert(res@ =~= padded_right(lowered@, 6));
    res.append(" -> ");
    res.append(name);
    res.append(" (v");
    res.append(version);
    res.append(")");
    res
}

/// The name of the release channel at position `i` of the listing order.
fn channel_name(i: usize) -> (res: &'static str)
    requires
        i < 4,
    ensures
        res@ == channel_names()[i as int],
{
    if i == 0 {
        "Stable"
    } else if i == 1 {
        "Beta"
    } else if i == 2 {
        "Dev"
    } else {
        "Canary"
    }
}

/// The lines that present the channels of the index that it holds, in the
/// order `Stable`, `Beta`, `Dev`, `Canary`.
pub fn channel_listing(response: &ApiResponseLtsKnow) -> (res: Vec<String>)
    ensures
        res@.map_values(|line: String| line@) == channel_lines(
            response.channels@,
            channel_names(),
        ),
{
    let mut lines: Vec<String> = Vec::new();
    let mut i: usize = 0;
    while i < 4
        invariant
            i <= 4,
            lines@.map_values(|line: String| line@) == channel_lines(
                response.channels@,
                channel_names().take(i as int),
            ),
        decreases 4 - i,
    {
        let name = channel_name(i);
        assert(channel_names().take(i + 1).drop_last() =~= channel_names().take(i as int));
        assert(channel_names().take(i + 1).last() == channel_names()[i as int]);
        if let Some(channel) = response.channels.get(name) {
            let lowered = to_lowercase(name);
            let line = channel_line(lowered.as_str(), name, channel.version.as_str());
            let ghost before = lines@;
            lines.push(line);
            assert(lines@.map_values(|line: String| line@) =~= before.map_values(
                |line: String| line@,
            ).push(line@));
        }
        i = i + 1;
    }
    assert(channel_names().take(4) =~= channel_names());
    lines
}

/// The versions of the index, in its order.
pub fn all_version_names(response: &ApiResponseVersions) -> (res: Vec<String>)
    ensures
        res@.len() == response.versions@.len(),
        forall|i: int|
            0 <= i < res@.len() ==> #[trigger] res@[i]@ == response.versions@[i].version@,
{
    let n = response.versions.len();
    let mut names: Vec<String> = Vec::new();
    let mut i: usize = 0;
    while i < n
        invariant
            n == response.versions@.len(),
            i <= n,
            names@.len() == i,
            forall|j: int| 0 <= j < i ==> #[trigger] names@[j]@ == response.versions@[j].version@,
        decreases n - i,
    {
        names.push(response.versions[i].version.clone());
        i = i + 1;
    }
    names
}

/// The listing of channels has at most one line for each of the four channels.
pub proof fn lemma_channel_listing_length(
    channels: Map<Seq<char>, ChanelObject>,
    names: Seq<Seq<char>>,
)
    ensures
        channel_lines(channels, names).len() <= names.len(),
    decreases names.len(),
{
    if names.len() > 0 {
        lemma_channel_listing_length(channels, names.drop_last());
    }
}

/// The first entry with a version is at a position where the version
/// occurs, after none; no entry is found when the version occurs nowhere.
proof fn lemma_first_with_version_position(versions: Seq<GoodKnowVersions>, version: Seq<char>)
    ensures
        match first_with_version(versions, version) {
            Some(entry) => exists|i: int|
                #![trigger versions[i]]
                0 <= i < versions.len() && versions[i] == entry && versions[i].version@ == version
                    && forall|k: int| 0 <= k < i ==> versions[k].version@ != version,
            None => forall|k: int| 0 <= k < versions.len() ==> versions[k].version@ != version,
        },
    decreases versions.len(),
{
    if versions.len() > 0 && versions[0].version@ != version {
        let rest = versions.drop_first();
        lemma_first_with_version_position(rest, version);
        match first_with_version(rest, version) {
            Some(entry) => {
                let i = choose|i: int|
                    #![trigger rest[i]]
                    0 <= i < rest.len() && rest[i] == entry && rest[i].version@ == version
                        && forall|k: int| 0 <= k < i ==> rest[k].version@ != version;
                assert(versions[i + 1] == rest[i]);
                assert forall|k: int| 0 <= k < i + 1 implies versions[k].version@ != version by {
                    if k > 0 {
                        assert(versions[k] == rest[k - 1]);
                    }
                }
            },
            None => {
                assert forall|k: int| 0 <= k < versions.len() implies versions[k].version@
                    != version by {
                    if k > 0 {
                        assert(versions[k] == rest[k - 1]);
                    }
                }
            },
        }
    } else if versions.len() > 0 {
        assert(versions[0] == versions[0]);
    }
}

/// The first archive for a platform is at a position where the platform
/// occurs, after none; no archive is found when the platform occurs nowhere.
proof fn lemma_first_for_platform_position(downloads: Seq<Download>, platform: Seq<char>)
    ensures
        match first_for_platform(downloads, platform) {
            Some(d) => exists|j: int|
                #![trigger downloads[j]]
                0 <= j < downloads.len() && downloads[j] == d && downloads[j].platform@ == platform
                    && forall|k: int| 0 <= k < j ==> downloads[k].platform@ != platform,
            None => forall|k: int| 0 <= k < downloads.len() ==> downloads[k].platform@ != platform,
        },
    decreases downloads.len(),
{
    if downloads.len() > 0 && downloads[0].platform@ != platform {
        let rest = downloads.drop_first();
        lemma_first_for_platform_position(rest, platform);
        match first_for_platform(rest, platform) {
            Some(d) => {
                let j = choose|j: int|
                    #![trigger rest[j]]
                    0 <= j < rest.len() && rest[j] == d && rest[j].platform@ == platform
                        && forall|k: int| 0 <= k < j ==> rest[k].platform@ != platform;
                assert(downloads[j + 1] == rest[j]);
                assert forall|k: int| 0 <= k < j + 1 implies downloads[k].platform@
                    != platform by {
                    if k > 0 {
                        assert(downloads[k] == rest[k - 1]);
                    }
                }
            },
            None => {
                assert forall|k: int| 0 <= k < downloads.len() implies downloads[k].platform@
                    != platform by {
                    if k > 0 {
                        assert(downloads[k] == rest[k - 1]);
                    }
                }
            },
        }
    } else if downloads.len() > 0 {
        assert(downloads[0] == downloads[0]);
    }
}

/// What a search for a version answers. Found: the version asked for, and
/// the address of the first archive for the platform listed under exactly the
/// binary asked for, in the first entry of the index with that version.
/// Version missing: no entry has it. Archive missing: the first entry with
/// the version lists no archive of that binary for the platform. Each error
/// names what was asked for.
pub proof fn lemma_version_search_answers(
    response: ApiResponseVersions,
    platform: Seq<char>,
    version: Seq<char>,
    binary: Seq<char>,
    res: Result<(String, String), SearchError>,
)
    requires
        version_search_result(response, platform, version, binary, res),
    ensures
        res matches Ok((found, url)) ==> exists|i: int, j: int|
            #![trigger response.versions@[i], response.versions@[i].downloads@[binary]@[j]]
            {
                &&& 0 <= i < response.versions@.len()
                &&& response.versions@[i].version@ == version
                &&& forall|k: int| 0 <= k < i ==> response.versions@[k].version@ != version
                &&& found@ == version
                &&& response.versions@[i].downloads@.contains_key(binary)
                &&& 0 <= j < response.versions@[i].downloads@[binary]@.len()
                &&& response.versions@[i].downloads@[binary]@[j].platform@ == platform
                &&& forall|k: int|
                    0 <= k < j ==> response.versions@[i].downloads@[binary]@[k].platform@
                        != platform
                &&& url@ == response.versions@[i].downloads@[binary]@[j].url@
            },
        res matches Err(SearchError::VersionNotFound { version: v }) ==> {
            &&& v@ == version
            &&& forall|k: int|
                0 <= k < response.versions@.len() ==> response.versions@[k].version@ != version
        },
        res matches Err(SearchError::DownloadNotFound { platform: p, type_of_chrome: t, version: v })
            ==> {
            &&& p@ == platform
            &&& t@ == binary
            &&& v@ == version
            &&& exists|i: int|
                #![trigger response.versions@[i]]
                {
                    &&& 0 <= i < response.versions@.len()
                    &&& response.versions@[i].version@ == version
                    &&& forall|k: int|
                        0 <= k < i ==> response.versions@[k].version@ != version
                    &&& response.versions@[i].downloads@.contains_key(binary) ==> forall|k: int|
                        0 <= k < response.versions@[i].downloads@[binary]@.len()
                            ==> response.versions@[i].downloads@[binary]@[k].platform@
                            != platform
                }
        },
        !(res matches Err(SearchError::ChannelDownloadNotFound { .. })),
{
    let versions = response.versions@;
    lemma_first_with_version_position(versions, version);
    if let Some(entry) = first_with_version(versions, version) {
        let i = choose|i: int|
            #![trigger versions[i]]
            0 <= i < versions.len() && versions[i] == entry && versions[i].version@ == version
                && forall|k: int| 0 <= k < i ==> versions[k].version@ != version;
        if entry.downloads@.contains_key(binary) {
            let list = entry.downloads@[binary]@;
            lemma_first_for_platform_position(list, platform);
            if let Some(d) = first_for_platform(list, platform) {
                let j = choose|j: int|
                    #![trigger list[j]]
                    0 <= j < list.len() && list[j] == d && list[j].platform@ == platform
                        && forall|k: int| 0 <= k < j ==> list[k].platform@ != platform;
                assert(response.versions@[i].downloads@[binary]@[j] == d);
            }
        }
    }
}

/// What a search for a channel answers. Found: the channel's version, and the
/// address of the first archive for the platform listed under exactly the
/// binary asked for in that channel. Otherwise: the error that names the
/// platform, binary and channel asked for, given only when the index holds
/// no such archive.
pub proof fn lemma_channel_search_answers(
    response: ApiResponseLtsKnow,
    platform: Seq<char>,
    channel: Seq<char>,
    binary: Seq<char>,
    res: Result<(String, String), SearchError>,
)
    requires
        channel_search_result(response, platform, channel, binary, res),
    ensures
        res matches Ok((found, url)) ==> {
            &&& response.channels@.contains_key(channel)
            &&& found@ == response.channels@[channel].version@
            &&& response.channels@[channel].downloads@.contains_key(binary)
            &&& exists|j: int|
                #![trigger response.channels@[channel].downloads@[binary]@[j]]
                {
                    &&& 0 <= j < response.channels@[channel].downloads@[binary]@.len()
                    &&& response.channels@[channel].downloads@[binary]@[j].platform@ == platform
                    &&& forall|k: int|
                        0 <= k < j ==> response.channels@[channel].downloads@[binary]@[k].platform@
                            != platform
                    &&& url@ == response.channels@[channel].downloads@[binary]@[j].url@
                }
        },
        res is Err ==> {
            &&& res matches Err(
                SearchError::ChannelDownloadNotFound { platform: p, type_of_chrome: t, channel: c },
            ) && p@ == platform && t@ == binary && c@ == channel
            &&& response.channels@.contains_key(channel)
                && response.channels@[channel].downloads@.contains_key(binary) ==> forall|k: int|
                0 <= k < response.channels@[channel].downloads@[binary]@.len()
                    ==> response.channels@[channel].downloads@[binary]@[k].platform@ != platform
        },
{
    if response.channels@.contains_key(channel) {
        let downloads = response.channels@[channel].downloads@;
        if downloads.contains_key(binary) {
            let list = downloads[binary]@;
            lemma_first_for_platform_position(list, platform);
            if let Some(d) = first_for_platform(list, platform) {
                let j = choose|j: int|
                    #![trigger list[j]]
                    0 <= j < list.len() && list[j] == d && list[j].platform@ == platform
                        && forall|k: int| 0 <= k < j ==> list[k].platform@ != platform;
                assert(response.channels@[channel].downloads@[binary]@[j] == d);
            }
        }
    }
}

/// The listing presents, in this order, the lines of `Stable`, `Beta`, `Dev`
/// and `Canary`, each once and only when the index holds it.
pub proof fn lemma_channel_listing_order(channels: Map<Seq<char>, ChanelObject>)
    ensures
        channel_lines(channels, channel_names()) == (if channels.contains_key("Stable"@) {
            seq![channel_line_text(lowercase("Stable"@), "Stable"@, channels["Stable"@].version@)]
        } else {
            Seq::<Seq<char>>::empty()
        }) + (if channels.contains_key("Beta"@) {
            seq![channel_line_text(lowercase("Beta"@), "Beta"@, channels["Beta"@].version@)]
        } else {
            Seq::<Seq<char>>::empty()
        }) + (if channels.contains_key("Dev"@) {
            seq![channel_line_text(lowercase("Dev"@), "Dev"@, channels["Dev"@].version@)]
        } else {
            Seq::<Seq<char>>::empty()
        }) + (if channels.contains_key("Canary"@) {
            seq![channel_line_text(lowercase("Canary"@), "Canary"@, channels["Canary"@].version@)]
        } else {
            Seq::<Seq<char>>::empty()
        }),
{
    let names = channel_names();
    assert(names.drop_last() =~= seq!["Stable"@, "Beta"@, "Dev"@]);
    assert(names.drop_last().drop_last() =~= seq!["Stable"@, "Beta"@]);
    assert(names.drop_last().drop_last().drop_last() =~= seq!["Stable"@]);
    assert(names.drop_last().drop_last().drop_last().drop_last() =~= Seq::<Seq<char>>::empty());
    let l0 = channel_lines(channels, Seq::<Seq<char>>::empty());
    let l1 = channel_lines(channels, seq!["Stable"@]);
    let l2 = channel_lines(channels, seq!["Stable"@, "Beta"@]);
    let l3 = channel_lines(channels, seq!["Stable"@, "Beta"@, "Dev"@]);
    assert(seq!["Stable"@].drop_last() =~= Seq::<Seq<char>>::empty());
    assert(seq!["Stable"@, "Beta"@].drop_last() =~= seq!["Stable"@]);
    assert(seq!["Stable"@, "Beta"@, "Dev"@].drop_last() =~= seq!["Stable"@, "Beta"@]);
    assert(channel_lines(channels, names) =~= (if channels.contains_key("Stable"@) {
        seq![channel_line_text(lowercase("Stable"@), "Stable"@, channels["Stable"@].version@)]
    } else {
        Seq::<Seq<char>>::empty()
    }) + (if channels.contains_key("Beta"@) {
        seq![channel_line_text(lowercase("Beta"@), "Beta"@, channels["Beta"@].version@)]
    } else {
        Seq::<Seq<char>>::empty()
    }) + (if channels.contains_key("Dev"@) {
        seq![channel_line_text(lowercase("Dev"@), "Dev"@, channels["Dev"@].version@)]
    } else {
        Seq::<Seq<char>>::empty()
    }) + (if channels.contains_key("Canary"@) {
        seq![channel_line_text(lowercase("Canary"@), "Canary"@, channels["Canary"@].version@)]
    } else {
        Seq::<Seq<char>>::empty()
    }));
}

/// The line of a channel: the lower-case name, then spaces up to the sixth
/// character (none when the name is longer), then ` -> `, the name, ` (v`,
/// the version and `)`.
pub proof fn lemma_channel_line_layout(lowered: Seq<char>, name: Seq<char>, version: Seq<char>)
    ensures
        ({
            let line = channel_line_text(lowered, name, version);
            let w: int = if lowered.len() >= 6 { lowered.len() as int } else { 6 };
            &&& line.len() == w + 4 + name.len() + 3 + version.len() + 1
            &&& line.subrange(0, lowered.len() as int) == lowered
            &&& forall|i: int| lowered.len() <= i < w ==> line[i] == ' '
            &&& line.subrange(w, w + 4) == " -> "@
            &&& line.subrange(w + 4, w + 4 + name.len()) == name
            &&& line.subrange(w + 4 + name.len(), w + 7 + name.len()) == " (v"@
            &&& line.subrange(w + 7 + name.len(), w + 7 + name.len() + version.len()) == version
            &&& line.last() == ')'
        }),
{
    reveal_strlit(" -> ");
    reveal_strlit(" (v");
    reveal_strlit(")");
    let line = channel_line_text(lowered, name, version);
    let w: int = if lowered.len() >= 6 { lowered.len() as int } else { 6 };
    let padded = padded_right(lowered, 6);
    assert(padded.len() == w);
    assert(line =~= padded + " -> "@ + name + " (v"@ + version + ")"@);
    assert(line.subrange(0, lowered.len() as int) =~= lowered);
    assert forall|i: int| lowered.len() <= i < w implies line[i] == ' ' by {
        assert(line[i] == padded[i]);
    }
    assert(line.subrange(w, w + 4) =~= " -> "@);
    assert(line.subrange(w + 4, w + 4 + name.len()) =~= name);
    assert(line.subrange(w + 4 + name.len(), w + 7 + name.len()) =~= " (v"@);
    assert(line.subrange(w + 7 + name.len(), w + 7 + name.len() + version.len()) =~= version);
}

} // verus!
