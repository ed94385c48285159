//! Candidate entries from the shell: which shell items are kept, how they
//! become application entries, and how internet shortcut files are read.

use crate::models::{AppType, ApplicationInfo, ApplicationView};
use crate::text::{
    ascii_lower, chars_eq, chars_of, concat_str, first_index_of, has_substring,
    index_of, is_blank, lemma_first_index_of, lower_str, opt_view, same_ignoring_case, slice_of,
    sorted_strings, sorted_texts, spells, split_chars, split_on, str_contains,
    str_starts_with, string_of, strip_quotes, to_ascii_lower, trim, trim_str, trimmed, unquoted,
    views,
};
use crate::text_utils::{build_pinyin_index, packed_index, text_views};
use vstd::prelude::*;

verus! {

/// What std's `String::from_utf16_lossy` returns for a sequence of UTF-16 code
/// units: the decoded text, with U+FFFD for every unpaired surrogate.
pub uninterp spec fn utf16_lossy(units: Seq<u16>) -> Seq<char>;

/// std's `String::from_utf16_lossy` is a function of the code units alone; its
/// result is named `utf16_lossy`.
pub assume_specification[ String::from_utf16_lossy ](v: &[u16]) -> (r: String)
    ensures
        r@ == utf16_lossy(v@),
;

/// What std's `String::from_utf16` returns for a sequence of UTF-16 code
/// units: the decoded text, or nothing where a surrogate is unpaired.
pub uninterp spec fn utf16_strict(units: Seq<u16>) -> Option<Seq<char>>;

/// Calls std's `String::from_utf16` and drops the error's details. The result
/// is a function of the code units alone and is named `utf16_strict`.
#[verifier::external_body]
fn decode_utf16_strict(units: &[u16]) -> (r: Option<String>)
    ensures
        opt_view(r) == utf16_strict(units@),
{
    String::from_utf16(units).ok()
}

/// What std's `String::from_utf8_lossy` returns for a byte string: the decoded
/// text, with U+FFFD for every invalid sequence.
pub uninterp spec fn utf8_lossy(bytes: Seq<u8>) -> Seq<char>;

/// Calls std's `String::from_utf8_lossy` and takes the text as a `String`. The
/// result is a function of the bytes alone and is named `utf8_lossy`.
#[verifier::external_body]
fn decode_utf8_lossy(bytes: &[u8]) -> (r: String)
    ensures
        r@ == utf8_lossy(bytes@),
{
    String::from_utf8_lossy(bytes).into_owned()
}

/// Whether the text reads as a file path: it holds a drive or scheme colon
/// followed by a slash of either kind, or begins with two backslashes.
pub open spec fn file_path_like(path: Seq<char>) -> bool {
    let lower = ascii_lower(path);
    has_substring(lower, ":\\"@) || has_substring(lower, ":/"@) || "\\\\"@.is_prefix_of(lower)
}

/// Whether the text reads as a file path.
pub fn looks_like_file_path(path: &str) -> (r: bool)
    ensures
        r == file_path_like(path@),
{
    let lower = lower_str(path);
    str_contains(lower.as_str(), ":\\") || str_contains(lower.as_str(), ":/") || str_starts_with(
        lower.as_str(),
        "\\\\",
    )
}

/// Whether the text names an uninstaller: in lower case it holds `unins`.
pub open spec fn uninstaller_like(value: Seq<char>) -> bool {
    let lower = ascii_lower(value);
    has_substring(lower, "unins"@) || has_substring(lower, "uninstall"@)
}

/// Whether the text names an uninstaller.
pub fn looks_like_uninstaller(value: &str) -> (r: bool)
    ensures
        r == uninstaller_like(value@),
{
    let lower = lower_str(value);
    str_contains(lower.as_str(), "unins") || str_contains(lower.as_str(), "uninstall")
}

/// The kind of application that a shell parsing name stands for: a packaged
/// one where the name, in lower case, begins with `shell:appsfolder\` and
/// holds an exclamation mark; else a native one.
pub open spec fn shell_app_type(parsing_name: Seq<char>) -> AppType {
    let lower = ascii_lower(parsing_name);
    if "shell:appsfolder\\"@.is_prefix_of(lower) && lower.contains('!') {
        AppType::Uwp
    } else {
        AppType::Win32
    }
}

/// The kind of application that a shell parsing name stands for.
pub fn infer_shell_app_type(parsing_name: &str) -> (r: AppType)
    ensures
        r == shell_app_type(parsing_name@),
{
    let lower = to_ascii_lower(&chars_of(parsing_name));
    proof {
        lemma_first_index_of(lower@, '!');
    }
    if crate::text::starts_with(&lower, &chars_of("shell:appsfolder\\")) && index_of(&lower, '!')
        < lower.len() {
        AppType::Uwp
    } else {
        AppType::Win32
    }
}

/// Whether a file of this extension, in lower case, is never an application.
pub open spec fn is_data_extension(extension_lower: Seq<char>) -> bool {
    ||| extension_lower == "dll"@
    ||| extension_lower == "sys"@
    ||| extension_lower == "drv"@
    ||| extension_lower == "pnf"@
    ||| extension_lower == "mui"@
    ||| extension_lower == "dat"@
    ||| extension_lower == "log"@
}

/// Whether a shell item is kept out of the index: it names an uninstaller; or
/// its parsing name is blank; or the parsing name reads as a file path and
/// either is no file or has the extension of a data file.
pub open spec fn shell_item_blacklisted(
    name: Seq<char>,
    parsing_name: Seq<char>,
    is_file: bool,
    extension: Option<Seq<char>>,
) -> bool {
    ||| uninstaller_like(name)
    ||| uninstaller_like(parsing_name)
    ||| trim(parsing_name).len() == 0
    ||| (file_path_like(trim(parsing_name)) && (!is_file || (extension matches Some(ext)
        && is_data_extension(ascii_lower(ext)))))
}

/// Whether a shell item is kept out of the index. `is_file` says whether the
/// trimmed parsing name is an existing file, `extension` is that path's
/// extension; both are read only where the parsing name reads as a file path.
pub fn is_blacklisted_shell_item(
    name: &str,
    parsing_name: &str,
    is_file: bool,
    extension: Option<&str>,
) -> (r: bool)
    ensures
        r == shell_item_blacklisted(
            name@,
            parsing_name@,
            is_file,
            match extension {
                Some(ext) => Some(ext@),
                None => None,
            },
        ),
{
    if looks_like_uninstaller(name) || looks_like_uninstaller(parsing_name) {
        return true;
    }
    let stripped = trim_str(parsing_name);
    if stripped.as_str().is_empty() {
        return true;
    }
    if looks_like_file_path(stripped.as_str()) {
        if !is_file {
            return true;
        }
        match extension {
            Some(ext) => {
                let lower = to_ascii_lower(&chars_of(ext));
                if spells(&lower, "dll") || spells(&lower, "sys") || spells(&lower, "drv")
                    || spells(&lower, "pnf") || spells(&lower, "mui") || spells(&lower, "dat")
                    || spells(&lower, "log") {
                    return true;
                }
            },
            None => {},
        }
    }
    false
}

/// The application entry of a shell item with the given display name and
/// parsing name.
pub open spec fn shell_entry(name: Seq<char>, parsing_name: Seq<char>) -> ApplicationView {
    ApplicationView {
        id: "shell:"@ + ascii_lower(parsing_name),
        name,
        path: parsing_name,
        source_path: None,
        app_type: shell_app_type(parsing_name),
        description: None,
        keywords: sorted_texts(seq![name, parsing_name]),
        pinyin_index: packed_index(seq![name]),
        working_directory: None,
        arguments: None,
    }
}

/// The application entry of a shell item.
pub fn shell_application(name: String, parsing_name: String) -> (r: ApplicationInfo)
    ensures
        r@ == shell_entry(name@, parsing_name@),
{
    let app_type = infer_shell_app_type(parsing_name.as_str());
    let mut keywords: Vec<String> = Vec::new();
    keywords.push(name.clone());
    keywords.push(parsing_name.clone());
    assert(views(keywords@) =~= seq![name@, parsing_name@]);
    let keywords = sorted_strings(keywords);
    let sources = [name.as_str()];
    assert(text_views(sources@) =~= seq![name@]);
    let pinyin_index = build_pinyin_index(sources.as_slice());
    ApplicationInfo {
        id: concat_str("shell:", lower_str(parsing_name.as_str()).as_str()),
        name,
        path: parsing_name,
        source_path: None,
        app_type,
        description: None,
        keywords,
        pinyin_index,
        working_directory: None,
        arguments: None,
    }
}

/// The UTF-16 code units that the bytes hold, two bytes each in the given
/// byte order; a last odd byte is left out.
pub open spec fn utf16_units(data: Seq<u8>, little_endian: bool) -> Seq<u16> {
    Seq::new(
        data.len() / 2,
        |i: int|
            if little_endian {
                (data[2 * i] as int + 256 * (data[2 * i + 1] as int)) as u16
            } else {
                (256 * (data[2 * i] as int) + data[2 * i + 1] as int) as u16
            },
    )
}

/// Decodes UTF-16 bytes of the given byte order, with U+FFFD for what cannot
/// be decoded.
pub fn decode_utf16(data: &[u8], little_endian: bool) -> (r: String)
    ensures
        r@ == utf16_lossy(utf16_units(data@, little_endian)),
{
    let mut units: Vec<u16> = Vec::new();
    let pairs: usize = data.len() / 2;
    let mut i: usize = 0;
    while i < pairs
        invariant
            i <= pairs,
            pairs == data.len() / 2,
            units@ == utf16_units(data@, little_endian).take(i as int),
        decreases pairs - i,
    {
        let first = data[2 * i];
        let second = data[2 * i + 1];
        let value: u16 = if little_endian {
            (first as u16) + 256 * (second as u16)
        } else {
            256 * (first as u16) + (second as u16)
        };
        units.push(value);
        assert(units@ =~= utf16_units(data@, little_endian).take(i + 1));
        i += 1;
    }
    assert(utf16_units(data@, little_endian).take(pairs as int) =~= utf16_units(
        data@,
        little_endian,
    ));
    String::from_utf16_lossy(units.as_slice())
}

/// The text of a shortcut file: UTF-16 where the bytes begin with a byte-order
/// mark of that encoding, else UTF-8 without a leading byte-order mark; what
/// cannot be decoded becomes U+FFFD.
pub open spec fn shortcut_text(bytes: Seq<u8>) -> Seq<char> {
    if bytes.len() >= 2 && bytes[0] == 0xFF && bytes[1] == 0xFE {
        utf16_lossy(utf16_units(bytes.skip(2), true))
    } else if bytes.len() >= 2 && bytes[0] == 0xFE && bytes[1] == 0xFF {
        utf16_lossy(utf16_units(bytes.skip(2), false))
    } else {
        let text = utf8_lossy(bytes);
        if text.len() > 0 && text[0] == '\u{feff}' {
            text.skip(1)
        } else {
            text
        }
    }
}

/// The bytes from position `from` on.
fn bytes_from(bytes: &[u8], from: usize) -> (r: Vec<u8>)
    requires
        from <= bytes.len(),
    ensures
        r@ == bytes@.skip(from as int),
{
    let mut r: Vec<u8> = Vec::new();
    let mut i: usize = from;
    while i < bytes.len()
        invariant
            from <= i <= bytes.len(),
            r@ == bytes@.subrange(from as int, i as int),
        decreases bytes.len() - i,
    {
        r.push(bytes[i]);
        assert(r@ =~= bytes@.subrange(from as int, i + 1));
        i += 1;
    }
    assert(bytes@.subrange(from as int, bytes.len() as int) =~= bytes@.skip(from as int));
    r
}

/// Decodes the bytes of a shortcut file.
pub fn decode_shortcut_contents(bytes: &[u8]) -> (r: Option<String>)
    ensures
        opt_view(r) == Some(shortcut_text(bytes@)),
{
    if bytes.len() >= 2 && bytes[0] == 0xFF && bytes[1] == 0xFE {
        Some(decode_utf16(bytes_from(bytes, 2).as_slice(), true))
    } else if bytes.len() >= 2 && bytes[0] == 0xFE && bytes[1] == 0xFF {
        Some(decode_utf16(bytes_from(bytes, 2).as_slice(), false))
    } else {
        let text = decode_utf8_lossy(bytes);
        let chars = chars_of(text.as_str());
        if chars.len() > 0 && chars[0] == '\u{feff}' {
            let rest = slice_of(&chars, 1, chars.len());
            assert(chars@.subrange(1, chars.len() as int) =~= text@.skip(1));
            Some(string_of(&rest))
        } else {
            Some(text)
        }
    }
}

/// Position of the first zero unit, or the length where there is none.
pub open spec fn first_zero(buffer: Seq<u16>) -> nat
    decreases buffer.len(),
{
    if buffer.len() > 0 && buffer[0] != 0 {
        1 + first_zero(buffer.drop_first())
    } else {
        0
    }
}

/// The text of a zero-terminated UTF-16 buffer: what stands before the first
/// zero unit, decoded; nothing where that is empty or cannot be decoded.
pub open spec fn wide_text(buffer: Seq<u16>) -> Option<Seq<char>> {
    let end = first_zero(buffer) as int;
    if end == 0 {
        None
    } else {
        utf16_strict(buffer.take(end))
    }
}

/// Decodes a zero-terminated UTF-16 buffer.
pub fn wide_to_string(buffer: &[u16]) -> (r: Option<String>)
    ensures
        opt_view(r) == wide_text(buffer@),
{
    let mut end: usize = 0;
    assert(buffer@.skip(0) =~= buffer@);
    while end < buffer.len() && buffer[end] != 0
        invariant
            end <= buffer.len(),
            first_zero(buffer@) == end + first_zero(buffer@.skip(end as int)),
        decreases buffer.len() - end,
    {
        proof {
            assert(buffer@.skip(end as int).drop_first() =~= buffer@.skip(end + 1));
        }
        end += 1;
    }
    if end == 0 {
        return None;
    }
    let mut head: Vec<u16> = Vec::new();
    let mut i: usize = 0;
    while i < end
        invariant
            i <= end <= buffer.len(),
            head@ == buffer@.take(i as int),
        decreases end - i,
    {
        head.push(buffer[i]);
        assert(head@ =~= buffer@.take(i + 1));
        i += 1;
    }
    decode_utf16_strict(head.as_slice())
}

/// What an internet shortcut file says.
#[derive(Debug, PartialEq, Eq)]
pub struct InternetShortcutInfo {
    pub url: String,
    pub description: Option<String>,
}

impl Clone for InternetShortcutInfo {
    fn clone(&self) -> (r: Self)
        ensures
            r.url@ == self.url@,
            opt_view(r.description) == opt_view(self.description),
    {
        InternetShortcutInfo {
            url: self.url.clone(),
            description: crate::models::clone_opt(&self.description),
        }
    }
}

/// What is known of a shortcut file after some of its lines were read.
pub struct ShortcutScan {
    /// Whether the last section header read was that of the shortcut section.
    pub in_section: bool,
    pub url: Option<Seq<char>>,
    pub description: Option<Seq<char>>,
}

/// What is known after one more line was read. Blank lines and lines that
/// begin with a semicolon say nothing; a line in square brackets opens a
/// section; inside the shortcut section, a line `key=value` whose value,
/// trimmed and without quotation marks at its ends, is not empty sets the
/// address for the key `url` and the description for `description` or
/// `comment`, keys in any case.
pub open spec fn scan_line(state: ShortcutScan, raw_line: Seq<char>) -> ShortcutScan {
    let line = trim(raw_line);
    if line.len() == 0 || line[0] == ';' {
        state
    } else if line[0] == '[' && line.last() == ']' {
        ShortcutScan { in_section: same_ignoring_case(line, "[internetshortcut]"@), ..state }
    } else if !state.in_section {
        state
    } else {
        let at = first_index_of(line, '=') as int;
        if at >= line.len() {
            state
        } else {
            let key = ascii_lower(trim(line.take(at)));
            let value = unquoted(trim(line.skip(at + 1)));
            if value.len() == 0 {
                state
            } else if key == "url"@ {
                ShortcutScan { url: Some(value), ..state }
            } else if key == "description"@ || key == "comment"@ {
                ShortcutScan { description: Some(value), ..state }
            } else {
                state
            }
        }
    }
}

/// What is known after all the lines were read, in order.
pub open spec fn scan_lines(lines: Seq<Seq<char>>) -> ShortcutScan
    decreases lines.len(),
{
    if lines.len() == 0 {
        ShortcutScan { in_section: false, url: None, description: None }
    } else {
        scan_line(scan_lines(lines.drop_last()), lines.last())
    }
}

/// What a shortcut file with the given text says: its lines, which end at line
/// feeds, are read in order; the file says nothing where no address was set.
pub open spec fn shortcut_of(content: Seq<char>) -> Option<(Seq<char>, Option<Seq<char>>)> {
    let scan = scan_lines(split_on(content, '\n'));
    match scan.url {
        Some(url) => Some((url, scan.description)),
        None => None,
    }
}

/// Reads the text of an internet shortcut file.
pub fn parse_shortcut_text(content: &str) -> (r: Option<InternetShortcutInfo>)
    ensures
        match r {
            Some(info) => shortcut_of(content@) == Some((info.url@, opt_view(info.description))),
            None => shortcut_of(content@) is None,
        },
{
    let lines = split_chars(&chars_of(content), '\n');
    let ghost lv = views(lines@);
    let mut in_section = false;
    let mut url: Option<String> = None;
    let mut description: Option<String> = None;
    let mut i: usize = 0;
    while i < lines.len()
        invariant
            i <= lines.len(),
            lv == views(lines@),
            scan_lines(lv.take(i as int)) == (ShortcutScan {
                in_section,
                url: opt_view(url),
                description: opt_view(description),
            }),
        decreases lines.len() - i,
    {
        proof {
            assert(lv.take(i + 1).drop_last() =~= lv.take(i as int));
            assert(lv.take(i + 1).last() == lines@[i as int]@);
        }
        let line = trimmed(&chars_of(lines[i].as_str()));
        i += 1;
        if line.len() == 0 || line[0] == ';' {
            continue ;
        }
        if line[0] == '[' && line[line.len() - 1] == ']' {
            in_section = chars_eq(
                &to_ascii_lower(&line),
                &to_ascii_lower(&chars_of("[internetshortcut]")),
            );
            continue ;
        }
        if !in_section {
            continue ;
        }
        let at = index_of(&line, '=');
        if at >= line.len() {
            continue ;
        }
        let key = to_ascii_lower(&trimmed(&slice_of(&line, 0, at)));
        let value = strip_quotes(&trimmed(&slice_of(&line, at + 1, line.len())));
        proof {
            assert(line@.subrange(0, at as int) =~= line@.take(at as int));
            assert(line@.subrange(at + 1, line.len() as int) =~= line@.skip(at + 1));
        }
        if value.len() == 0 {
            continue ;
        }
        if spells(&key, "url") {
            url = Some(string_of(&value));
        } else if spells(&key, "description") || spells(&key, "comment") {
            description = Some(string_of(&value));
        }
    }
    proof {
        assert(lv.take(lines.len() as int) =~= lv);
    }
    match url {
        Some(url) => Some(InternetShortcutInfo { url, description }),
        None => None,
    }
}

/// Reads the bytes of an internet shortcut file; an empty file says nothing.
pub fn parse_internet_shortcut(bytes: &[u8]) -> (r: Option<InternetShortcutInfo>)
    ensures
        bytes@.len() == 0 ==> r is None,
        bytes@.len() > 0 ==> match r {
            Some(info) => shortcut_of(shortcut_text(bytes@)) == Some(
                (info.url@, opt_view(info.description)),
            ),
            None => shortcut_of(shortcut_text(bytes@)) is None,
        },
{
    if bytes.len() == 0 {
        return None;
    }
    match decode_shortcut_contents(bytes) {
        Some(content) => parse_shortcut_text(content.as_str()),
        None => None,
    }
}

/// Whether an address, in lower case, opens with one of the launcher
/// protocols that shortcuts are indexed for.
pub open spec fn launcher_url(url_lower: Seq<char>) -> bool {
    "steam://"@.is_prefix_of(url_lower) || "com.epicgames.launcher://apps/"@.is_prefix_of(
        url_lower,
    )
}

/// The description that an entry keeps: the shortcut's, unless it is blank.
pub open spec fn kept_description(description: Option<Seq<char>>) -> Option<Seq<char>> {
    match description {
        Some(text) => if trim(text).len() > 0 {
            Some(text)
        } else {
            None
        },
        None => None,
    }
}

/// The application entry of an internet shortcut at `path` whose file name,
/// without extension, is `stem`: nothing where the trimmed address is empty
/// or opens with no launcher protocol, or where there is no stem or a blank one.
pub open spec fn shortcut_entry(
    path: Seq<char>,
    stem: Option<Seq<char>>,
    url: Seq<char>,
    description: Option<Seq<char>>,
) -> Option<ApplicationView> {
    let address = trim(url);
    if address.len() == 0 || !launcher_url(ascii_lower(address)) {
        None
    } else {
        match stem {
            Some(stem) => {
                let name = trim(stem);
                if name.len() == 0 {
                    None
                } else {
                    let kept = kept_description(description);
                    Some(
                        ApplicationView {
                            id: "url:startmenu:"@ + ascii_lower(path),
                            name,
                            path: address,
                            source_path: Some(path),
                            app_type: AppType::Win32,
                            description: kept,
                            keywords: sorted_texts(
                                match kept {
                                    Some(text) => seq![name, address, trim(text)],
                                    None => seq![name, address],
                                },
                            ),
                            pinyin_index: packed_index(
                                match kept {
                                    Some(text) => seq![name, text],
                                    None => seq![name],
                                },
                            ),
                            working_directory: None,
                            arguments: None,
                        },
                    )
                }
            },
            None => None,
        }
    }
}

/// The application entry of an internet shortcut file at `path`, whose file
/// name without extension is `stem`.
pub fn internet_shortcut_to_application(
    path: &str,
    stem: Option<&str>,
    shortcut: InternetShortcutInfo,
) -> (r: Option<ApplicationInfo>)
    ensures
        match r {
            Some(app) => shortcut_entry(
                path@,
                match stem {
                    Some(s) => Some(s@),
                    None => None,
                },
                shortcut.url@,
                opt_view(shortcut.description),
            ) == Some(app@),
            None => shortcut_entry(
                path@,
                match stem {
                    Some(s) => Some(s@),
                    None => None,
                },
                shortcut.url@,
                opt_view(shortcut.description),
            ) is None,
        },
{
    let url = trim_str(shortcut.url.as_str());
    if url.as_str().is_empty() {
        return None;
    }
    let lower_url = lower_str(url.as_str());
    if !(str_starts_with(lower_url.as_str(), "steam://") || str_starts_with(
        lower_url.as_str(),
        "com.epicgames.launcher://apps/",
    )) {
        return None;
    }
    let name = match stem {
        Some(stem) => trim_str(stem),
        None => {
            return None;
        },
    };
    if name.as_str().is_empty() {
        return None;
    }
    let description = match shortcut.description {
        Some(text) => if is_blank(text.as_str()) {
            None
        } else {
            Some(text)
        },
        None => None,
    };
    let mut keywords: Vec<String> = Vec::new();
    keywords.push(name.clone());
    keywords.push(url.clone());
    match &description {
        Some(text) => {
            keywords.push(trim_str(text.as_str()));
            assert(views(keywords@) =~= seq![name@, url@, trim(text@)]);
        },
        None => {
            assert(views(keywords@) =~= seq![name@, url@]);
        },
    }
    let keywords = sorted_strings(keywords);
    let pinyin_index = match &description {
        Some(text) => {
            let sources = [name.as_str(), text.as_str()];
            assert(text_views(sources@) =~= seq![name@, text@]);
            build_pinyin_index(sources.as_slice())
        },
        None => {
            let sources = [name.as_str()];
            assert(text_views(sources@) =~= seq![name@]);
            build_pinyin_index(sources.as_slice())
        },
    };
    Some(
        ApplicationInfo {
            id: concat_str("url:startmenu:", lower_str(path).as_str()),
            name,
            path: url,
            source_path: Some(path.to_owned()),
            app_type: AppType::Win32,
            description,
            keywords,
            pinyin_index,
            working_directory: None,
            arguments: None,
        },
    )
}

} // verus!
