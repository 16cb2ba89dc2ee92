//! Reading the `<name>@<version>` argument of `install` and `purge`.

use vstd::prelude::*;
use crate::text::{
    all_white_space, find_char, first_index_of, is_first_index_of, is_white_space,
    lemma_channel_words_lowercase, lemma_trimmed_ends, lemma_trimmed_ignores_padding,
    lemma_trimmed_is_framed_part, lowercase, str_equals, to_lowercase, trim, trimmed,
};

verus! {

/// Why an entry was refused.
#[derive(Debug, PartialEq, Eq, Structural, Clone, Copy)]
pub enum Error {
    InvalidEntryFormat,
    InvalidName,
    EmptyValue,
}

/// The text that describes each error.
pub open spec fn error_text(e: Error) -> Seq<char> {
    match e {
        Error::InvalidEntryFormat => "Invalid entry format, expected format: name@version"@,
        Error::InvalidName => "Invalid name, must be chrome, chromedriver, chrome-headless-shell"@,
        Error::EmptyValue => "The provided entry value is empty"@,
    }
}

impl Error {
    /// The text that describes this error.
    pub fn message(&self) -> (res: String)
        ensures
            res@ == error_text(*self),
    {
        match self {
            Error::InvalidEntryFormat => String::from_str(
                "Invalid entry format, expected format: name@version",
            ),
            Error::InvalidName => String::from_str(
                "Invalid name, must be chrome, chromedriver, chrome-headless-shell",
            ),
            Error::EmptyValue => String::from_str("The provided entry value is empty"),
        }
    }
}

/// The binaries that can be installed.
pub open spec fn is_known_binary(name: Seq<char>) -> bool {
    ||| name == "chrome"@
    ||| name == "chromedriver"@
    ||| name == "chrome-headless-shell"@
}

/// The release channels, spelled as the published indexes spell them.
pub open spec fn is_channel(version: Seq<char>) -> bool {
    ||| version == "Stable"@
    ||| version == "Beta"@
    ||| version == "Dev"@
    ||| version == "Canary"@
}

/// The version that an entry asks for, given the lower-case form of what
/// follows its `@`: a channel written in any case becomes its canonical
/// spelling, anything else is kept as written.
pub open spec fn normalized_version(lowered: Seq<char>, version: Seq<char>) -> Seq<char> {
    if lowered == "stable"@ {
        "Stable"@
    } else if lowered == "beta"@ {
        "Beta"@
    } else if lowered == "dev"@ {
        "Dev"@
    } else if lowered == "canary"@ {
        "Canary"@
    } else {
        version
    }
}

/// What reading an entry gives: the binary's name and the version or channel.
pub open spec fn parsed_entry(entry: Seq<char>) -> Result<(Seq<char>, Seq<char>), Error> {
    let t = trimmed(entry);
    if t.len() == 0 {
        Err(Error::EmptyValue)
    } else {
        match first_index_of(t, '@') {
            Some(at) => {
                let name = t.subrange(0, at);
                let version = t.subrange(at + 1, t.len() as int);
                if version.len() == 0 {
                    Err(Error::InvalidEntryFormat)
                } else if is_known_binary(name) {
                    Ok((name, normalized_version(lowercase(version), version)))
                } else {
                    Err(Error::InvalidName)
                }
            },
            None => if is_known_binary(t) {
                Ok((t, "Stable"@))
            } else {
                Err(Error::InvalidName)
            },
        }
    }
}

/// Whether `name` is one of the binaries that can be installed.
pub fn is_known_binary_name(name: &str) -> (res: bool)
    ensures
        res == is_known_binary(name@),
{
    str_equals(name, "chrome") || str_equals(name, "chromedriver") || str_equals(
        name,
        "chrome-headless-shell",
    )
}

/// Whether `version` names a release channel rather than a version number.
pub fn is_channel_label(version: &str) -> (res: bool)
    ensures
        res == is_channel(version@),
{
    str_equals(version, "Stable") || str_equals(version, "Beta") || str_equals(version, "Dev")
        || str_equals(version, "Canary")
}

/// The version an entry asks for, from the lower-case form of its version part.
pub fn normalize_version<'a>(lowered: &str, version: &'a str) -> (res: &'a str)
    ensures
        res@ == normalized_version(lowered@, version@),
{
    if str_equals(lowered, "stable") {
        "Stable"
    } else if str_equals(lowered, "beta") {
        "Beta"
    } else if str_equals(lowered, "dev") {
        "Dev"
    } else if str_equals(lowered, "canary") {
        "Canary"
    } else {
        version
    }
}

/// Reads an entry such as `chrome@116.0.5845.96`, `chromedriver@canary` or
/// `chrome`: surrounding white space is ignored, a channel may be written in
/// any case, and an entry without `@` asks for the stable channel.
pub fn parse_entry(entry: &str) -> (res: Result<(&str, &str), Error>)
    ensures
        match res {
            Ok((name, version)) => parsed_entry(entry@) == Ok::<(Seq<char>, Seq<char>), Error>(
                (name@, version@),
            ),
            Err(e) => parsed_entry(entry@) == Err::<(Seq<char>, Seq<char>), Error>(e),
        },
{
    let trimmed_entry = trim(entry);
    if trimmed_entry.unicode_len() == 0 {
        return Err(Error::EmptyValue);
    }
    match find_char(trimmed_entry, '@') {
        Some(at) => {
            let n = trimmed_entry.unicode_len();
            let name = trimmed_entry.substring_char(0, at);
            let version = trimmed_entry.substring_char(at + 1, n);
            if version.unicode_len() == 0 {
                return Err(Error::InvalidEntryFormat);
            }
            if is_known_binary_name(name) {
                let lowered = to_lowercase(version);
                Ok((name, normalize_version(lowered.as_str(), version)))
            } else {
                Err(Error::InvalidName)
            }
        },
        None => {
            if is_known_binary_name(trimmed_entry) {
                Ok((trimmed_entry, "Stable"))
            } else {
                Err(Error::InvalidName)
            }
        },
    }
}

/// White space before and after an entry does not change how it is read.
pub proof fn lemma_parse_entry_ignores_surrounding_white_space(
    before: Seq<char>,
    entry: Seq<char>,
    after: Seq<char>,
)
    requires
        all_white_space(before),
        all_white_space(after),
    ensures
        parsed_entry(before + entry + after) == parsed_entry(entry),
{
    lemma_trimmed_ignores_padding(before, entry, after);
}

/// An entry that is read names a binary that can be installed, and asks
/// either for a channel or for exactly the version it spells out.
pub proof fn lemma_parsed_entry_shape(entry: Seq<char>)
    ensures
        parsed_entry(entry) matches Ok((name, version)) ==> {
            &&& name == "chrome"@ || name == "chromedriver"@ || name == "chrome-headless-shell"@
            &&& version == "Stable"@ || version == "Beta"@ || version == "Dev"@ || version
                == "Canary"@ || exists|at: int|
                first_index_of(trimmed(entry), '@') == Some(at) && version == trimmed(
                    entry,
                ).subrange(at + 1, trimmed(entry).len() as int)
        },
{
}

/// The names of the binaries neither begin nor end with white space, and
/// hold no `@`.
proof fn lemma_known_binary_chars(name: Seq<char>)
    requires
        is_known_binary(name),
    ensures
        name.len() > 0,
        !is_white_space(name[0]),
        !is_white_space(name.last()),
        forall|i: int| 0 <= i < name.len() ==> name[i] != '@',
{
    reveal_strlit("chrome");
    reveal_strlit("chromedriver");
    reveal_strlit("chrome-headless-shell");
}

/// A name that starts with no white space and holds no `@`, then `@`, then a
/// version that does not end with white space: trimming keeps it whole, and
/// its first `@` is the one after the name.
proof fn lemma_split_entry(name: Seq<char>, version: Seq<char>)
    requires
        name.len() > 0,
        !is_white_space(name[0]),
        forall|i: int| 0 <= i < name.len() ==> name[i] != '@',
        version.len() > 0,
        !is_white_space(version.last()),
    ensures
        trimmed(name + "@"@ + version) == name + "@"@ + version,
        first_index_of(name + "@"@ + version, '@') == Some(name.len() as int),
        (name + "@"@ + version).subrange(0, name.len() as int) == name,
        (name + "@"@ + version).subrange(
            name.len() as int + 1,
            (name + "@"@ + version).len() as int,
        ) == version,
{
    reveal_strlit("@");
    let entry = name + "@"@ + version;
    assert(entry[0] == name[0]);
    assert(entry.last() == version.last());
    lemma_trimmed_is_framed_part(entry, 0, entry.len() as int);
    assert(entry.subrange(0, entry.len() as int) =~= entry);
    let at = name.len() as int;
    assert(is_first_index_of(entry, '@', at)) by {
        assert forall|j: int| 0 <= j < at implies entry[j] != '@' by {
            assert(entry[j] == name[j]);
        }
    }
    let k = choose|k: int| is_first_index_of(entry, '@', k);
    if k < at {
        assert(entry[k] == name[k]);
    }
    if k > at {
        assert(entry[at] != '@');
    }
    assert(first_index_of(entry, '@') == Some(at));
    assert(entry.subrange(0, at) =~= name);
    assert(entry.subrange(at + 1, entry.len() as int) =~= version);
}

/// A binary's name, `@` and a version that does not end with white space are
/// read as that name and the version the text after `@` asks for.
pub proof fn lemma_name_at_version(name: Seq<char>, version: Seq<char>)
    requires
        is_known_binary(name),
        version.len() > 0,
        !is_white_space(version.last()),
    ensures
        parsed_entry(name + "@"@ + version) == Ok::<(Seq<char>, Seq<char>), Error>(
            (name, normalized_version(lowercase(version), version)),
        ),
{
    lemma_known_binary_chars(name);
    lemma_split_entry(name, version);
}

/// Only `chrome`, `chromedriver` and `chrome-headless-shell` are accepted:
/// an entry whose name part is anything else is refused as an invalid name.
pub proof fn lemma_other_names_refused(name: Seq<char>, version: Seq<char>)
    requires
        name != "chrome"@,
        name != "chromedriver"@,
        name != "chrome-headless-shell"@,
        name.len() > 0,
        !is_white_space(name[0]),
        forall|i: int| 0 <= i < name.len() ==> name[i] != '@',
        version.len() > 0,
        !is_white_space(version.last()),
    ensures
        parsed_entry(name + "@"@ + version) == Err::<(Seq<char>, Seq<char>), Error>(
            Error::InvalidName,
        ),
{
    lemma_split_entry(name, version);
}

/// A binary's name alone is read as that name and the stable channel.
proof fn lemma_bare_name(name: Seq<char>)
    requires
        is_known_binary(name),
    ensures
        parsed_entry(name) == Ok::<(Seq<char>, Seq<char>), Error>((name, "Stable"@)),
{
    reveal_strlit("@");
    lemma_known_binary_chars(name);
    lemma_trimmed_is_framed_part(name, 0, name.len() as int);
    assert(name.subrange(0, name.len() as int) =~= name);
    assert(!exists|i: int| is_first_index_of(name, '@', i));
}

/// Naming a binary alone asks for what naming it with the stable channel, in
/// any case, asks for: its latest stable build.
pub proof fn lemma_bare_name_is_stable_channel(name: Seq<char>, version: Seq<char>)
    requires
        is_known_binary(name),
        version.len() > 0,
        !is_white_space(version.last()),
        lowercase(version) == "stable"@,
    ensures
        parsed_entry(name + "@"@ + version) == parsed_entry(name),
        parsed_entry(name) == Ok::<(Seq<char>, Seq<char>), Error>((name, "Stable"@)),
{
    lemma_name_at_version(name, version);
    lemma_bare_name(name);
}

/// What an entry is read as, written back as `<name>@<version>`, is read as
/// the same name and version.
pub proof fn lemma_parsed_entry_reads_back(entry: Seq<char>)
    ensures
        parsed_entry(entry) matches Ok((name, version)) ==> parsed_entry(name + "@"@ + version)
            == Ok::<(Seq<char>, Seq<char>), Error>((name, version)),
{
    if let Ok((name, version)) = parsed_entry(entry) {
        let t = trimmed(entry);
        lemma_trimmed_ends(entry);
        lemma_channel_words_lowercase();
        reveal_strlit("Stable");
        reveal_strlit("Beta");
        reveal_strlit("Dev");
        reveal_strlit("Canary");
        if is_channel(version) {
            assert(version.len() > 0 && !is_white_space(version.last()));
        } else {
            let at = first_index_of(t, '@')->0;
            let raw = t.subrange(at + 1, t.len() as int);
            assert(version == raw);
            assert(raw.last() == t.last());
        }
        lemma_name_at_version(name, version);
    }
}

/// The version asked for is either the text after `@` as written, or the
/// release channel that this text names in some case: a channel whose name
/// lower-cases to what the text lower-cases to.
pub proof fn lemma_channel_is_same_word(lowered: Seq<char>, raw: Seq<char>)
    requires
        lowered == lowercase(raw),
    ensures
        normalized_version(lowered, raw) == raw || ((normalized_version(lowered, raw)
            == "Stable"@ || normalized_version(lowered, raw) == "Beta"@ || normalized_version(
            lowered,
            raw,
        ) == "Dev"@ || normalized_version(lowered, raw) == "Canary"@) && lowercase(
            normalized_version(lowered, raw),
        ) == lowered),
        (lowered == lowercase("Stable"@) || lowered == lowercase("Beta"@) || lowered == lowercase(
            "Dev"@,
        ) || lowered == lowercase("Canary"@)) ==> lowercase(normalized_version(lowered, raw))
            == lowered && (normalized_version(lowered, raw) == "Stable"@ || normalized_version(
            lowered,
            raw,
        ) == "Beta"@ || normalized_version(lowered, raw) == "Dev"@ || normalized_version(
            lowered,
            raw,
        ) == "Canary"@),
{
    lemma_channel_words_lowercase();
}

} // verus!
