//! What an application is called, from what the system tells of its process.

use vstd::prelude::*;
use vstd::string::StringExecFns;

use crate::text;
use crate::text_laws;

verus! {

/// A language and a code page that a file has texts in.
#[derive(Debug, Clone, Copy, PartialEq, Eq, Structural)]
pub struct LangCodePage {
    pub w_language: u16,
    pub w_code_page: u16,
}

impl Default for LangCodePage {
    fn default() -> (page: Self)
        ensures
            page.w_language == 0 && page.w_code_page == 0,
    {
        LangCodePage { w_language: 0, w_code_page: 0 }
    }
}

/// How many properties of a file may name its application.
pub const VERSION_KEYS: usize = 5;

/// The properties of a file that may name its application, in the order in which they are tried.
pub open spec fn version_key_text(index: nat) -> Seq<char> {
    if index == 0 {
        "FileDescription"@
    } else if index == 1 {
        "ProductName"@
    } else if index == 2 {
        "ProductShortName"@
    } else if index == 3 {
        "InternalName"@
    } else {
        "OriginalFilename"@
    }
}

/// The properties of a file that may name its application, in the order in which they are tried.
pub fn version_key(index: usize) -> (key: &'static str)
    requires
        index < VERSION_KEYS,
    ensures
        key@ == version_key_text(index as nat),
{
    if index == 0 {
        "FileDescription"
    } else if index == 1 {
        "ProductName"
    } else if index == 2 {
        "ProductShortName"
    } else if index == 3 {
        "InternalName"
    } else {
        "OriginalFilename"
    }
}

/// The query for a property in a language and a code page.
pub open spec fn version_query_text(page: LangCodePage, index: nat) -> Seq<char> {
    "\\StringFileInfo\\"@ + text::four_digits(page.w_language as nat) + text::four_digits(
        page.w_code_page as nat,
    ) + "\\"@ + version_key_text(index)
}

/// The query for a property in a language and a code page.
pub fn version_query(page: LangCodePage, index: usize) -> (query: String)
    requires
        index < VERSION_KEYS,
    ensures
        query@ == version_query_text(page, index as nat),
{
    let mut query = "\\StringFileInfo\\".to_owned();
    text::push_four_digits(&mut query, page.w_language);
    text::push_four_digits(&mut query, page.w_code_page);
    query.append("\\");
    query.append(version_key(index));
    query
}

/// The part of a file name before its last dot; all of it where there is no dot, or where the only
/// one is its first character.
pub open spec fn stem(name: Seq<char>) -> Seq<char> {
    let dot = last_dot(name);
    if dot <= 0 {
        name
    } else {
        name.take(dot)
    }
}

/// The place of the last dot; below zero where there is none.
pub open spec fn last_dot(name: Seq<char>) -> int
    decreases name.len(),
{
    if name.len() == 0 {
        -1
    } else if name.last() == '.' {
        name.len() - 1
    } else {
        last_dot(name.drop_last())
    }
}

/// The part of a file name before its last dot; all of it where there is no dot, or where the only
/// one is its first character.
pub fn file_stem(name: &str) -> (result: String)
    ensures
        result@ == stem(name@),
{
    let length: usize = name.unicode_len();
    let mut end: usize = length;
    assert(name@.take(length as int) =~= name@);
    while end > 0
        invariant
            end <= length,
            length == name@.len(),
            last_dot(name@) == last_dot(name@.take(end as int)),
        decreases end,
    {
        assert(name@.take(end as int).drop_last() =~= name@.take(end - 1));
        if name.get_char(end - 1) == '.' {
            if end == 1 {
                return name.to_owned();
            }
            return name.substring_char(0, end - 1).to_owned();
        }
        end = end - 1;
    }
    name.to_owned()
}

/// Whether a character parts the components of a path on some system.
pub open spec fn is_separator(c: char) -> bool {
    c == '/' || c == '\\'
}

/// Whether a path begins with two separators: on some systems that of a share or of a device does.
pub open spec fn begins_twice(path: Seq<char>) -> bool {
    path.len() >= 2 && is_separator(path[0]) && is_separator(path[1])
}

/// Whether a path may be verbatim on some system, so that a slash does not part its components.
pub open spec fn may_be_verbatim(path: Seq<char>) -> bool {
    begins_twice(path) && path.len() > 2 && path[2] == '?'
}

/// Whether a path that begins with two separators goes on with a server, up to the separator at
/// `server_end`, and a share, up to the one at `share_end`.
pub open spec fn leaves_share(path: Seq<char>, server_end: int, share_end: int) -> bool {
    &&& 2 < server_end
    &&& server_end + 1 < share_end < path.len()
    &&& is_separator(path[server_end])
    &&& is_separator(path[share_end])
    &&& forall|k: int| 2 <= k < share_end && k != server_end ==> !is_separator(#[trigger] path[k])
}

/// Whether a path goes on beyond what names a share or a device on some system.
pub open spec fn goes_on(path: Seq<char>) -> bool {
    begins_twice(path) ==> !may_be_verbatim(path) && exists|server_end: int, share_end: int|
        leaves_share(path, server_end, share_end)
}

/// Whether a path ends in a character of a name. A dot counts as one where it follows another that
/// is no dot.
pub open spec fn ends_in_name(path: Seq<char>) -> bool {
    &&& path.len() > 0
    &&& !is_separator(path.last()) && path.last() != ':'
    &&& path.last() == '.' ==> {
        let before = path[path.len() - 2];
        path.len() > 1 && !is_separator(before) && before != ':' && before != '.'
    }
}

/// Whether `name` stands in `path` from `start` to `end`, as its last component. It follows a
/// separator or the letter of a drive, and nothing follows it but separators and single dots. It
/// holds no slash, unless the path is verbatim; and no backslash, unless slashes alone part the
/// components.
pub open spec fn ends_path(path: Seq<char>, name: Seq<char>, start: int, end: int) -> bool {
    &&& 0 <= start < end <= path.len()
    &&& path.subrange(start, end) == name
    &&& start > 0 ==> is_separator(path[start - 1]) || (start == 2 && path[1] == ':')
    &&& end < path.len() ==> is_separator(path[end])
    &&& forall|i: int| end <= i < path.len() ==> is_separator(#[trigger] path[i]) || path[i] == '.'
    &&& name.contains('/') ==> may_be_verbatim(path)
    &&& name.contains('\\') ==> start == 0 || path[start - 1] == '/'
}

/// What the last component of a path may be on some system. What parts components differs from
/// system to system: a slash always does, but for verbatim paths, and a backslash on some.
pub open spec fn may_be_file_name(path: Seq<char>, name: Option<Seq<char>>) -> bool {
    &&& name matches Some(name) ==> {
        &&& name != "."@
        &&& name != ".."@
        &&& exists|start: int, end: int| ends_path(path, name, start, end)
    }
    &&& ends_in_name(path) && goes_on(path) ==> name is Some
    &&& (path.len() > 0 && path != "."@ && path != ".."@ && forall|i: int|
        0 <= i < path.len() ==> !is_separator(#[trigger] path[i]) && path[i] != ':') ==> name
        == Some(path)
}

/// The last component of a path, from `std::path::Path::file_name`. It stands at the end of the
/// path but for separators and single dots, and a path that ends in a name has one, unless all of
/// it names a share or a device. A slash parts components on every system, but for verbatim paths;
/// whether a backslash and the letter of a drive do depends on the system, and remains unsaid.
#[verifier::external_body]
fn path_file_name(path: &str) -> (name: Option<String>)
    ensures
        may_be_file_name(
            path@,
            match name {
                Some(name) => Some(name@),
                None => None,
            },
        ),
{
    std::path::Path::new(path).file_name().map(|name| name.to_string_lossy().to_string())
}

/// The name without its extension; empty where there is none.
pub open spec fn basename(name: Option<Seq<char>>) -> Seq<char> {
    match name {
        Some(name) => stem(name),
        None => Seq::empty(),
    }
}

/// The name without its extension; empty where there is none.
pub fn basename_of(name: &Option<String>) -> (result: String)
    ensures
        result@ == basename(
            match *name {
                Some(name) => Some(name@),
                None => None,
            },
        ),
{
    match name {
        Some(name) => file_stem(name.as_str()),
        None => String::new(),
    }
}

/// Whether `result` may be the last component of a path, without its extension.
pub open spec fn may_be_basename(path: Seq<char>, result: Seq<char>) -> bool {
    exists|name: Option<Seq<char>>| #[trigger]
        may_be_file_name(path, name) && result == basename(name)
}

/// The last component of a path, without its extension; empty where there is none.
pub fn basename_from_path(path: &str) -> (result: String)
    ensures
        may_be_basename(path@, result@),
{
    let name = path_file_name(path);
    let result = basename_of(&name);
    proof {
        let content = match name {
            Some(name) => Some(name@),
            None => None,
        };
        assert(may_be_file_name(path@, content));
    }
    result
}

/// A path that ends in a name, and goes on beyond a share or a device, gives an application a name.
pub proof fn law_path_that_ends_in_a_name_gives_one(path: Seq<char>, result: Seq<char>)
    requires
        ends_in_name(path),
        goes_on(path),
        may_be_basename(path, result),
    ensures
        result.len() > 0,
{
    let name = choose|name: Option<Seq<char>>| #[trigger]
        may_be_file_name(path, name) && result == basename(name);
    let (start, end) = choose|start: int, end: int| ends_path(path, name->0, start, end);
    lemma_last_dot_within(name->0);
}

proof fn lemma_last_dot_within(name: Seq<char>)
    ensures
        last_dot(name) < name.len(),
    decreases name.len(),
{
    if name.len() > 0 {
        lemma_last_dot_within(name.drop_last());
    }
}

/// A file under a directory is called by its name without the extension, where a slash stands before
/// it.
pub proof fn law_file_is_called_by_its_name(directory: Seq<char>, file: Seq<char>, result: Seq<char>)
    requires
        is_file(file),
        goes_on(directory.push('/') + file),
        may_be_basename(directory.push('/') + file, result),
    ensures
        result == stem(file),
{
    let path = directory.push('/') + file;
    let name = choose|name: Option<Seq<char>>| #[trigger]
        may_be_file_name(path, name) && result == basename(name);
    lemma_file_ends_path(directory, '/', file);
    let (start, end) = choose|start: int, end: int| ends_path(path, name->0, start, end);
    lemma_after_separator(directory, '/', file, name->0, start, end);
}

/// Where a backslash stands before it, and no slash anywhere, it is called so too on the systems on
/// which a backslash parts components; on the others all of the path is its name.
pub proof fn law_file_behind_a_backslash(directory: Seq<char>, file: Seq<char>, result: Seq<char>)
    requires
        is_file(file),
        !directory.contains('/'),
        goes_on(directory.push('\\') + file),
        may_be_basename(directory.push('\\') + file, result),
    ensures
        result == stem(file) || result == stem(directory.push('\\') + file),
{
    let path = directory.push('\\') + file;
    let name = choose|name: Option<Seq<char>>| #[trigger]
        may_be_file_name(path, name) && result == basename(name);
    lemma_file_ends_path(directory, '\\', file);
    let (start, end) = choose|start: int, end: int| ends_path(path, name->0, start, end);
    if start > directory.len() {
        lemma_after_separator(directory, '\\', file, name->0, start, end);
    } else {
        lemma_end_of_path(directory, '\\', file, name->0, start, end);
        assert(name->0[directory.len() - start] == '\\');
        if start > 0 {
            assert(path[start - 1] == directory[start - 1]);
        }
        assert(path.subrange(0, path.len() as int) =~= path);
    }
}

/// Whether a text may be the name of a file: it has a character, no separator and no colon, and does
/// not end in a dot.
pub open spec fn is_file(file: Seq<char>) -> bool {
    &&& file.len() > 0
    &&& file.last() != '.'
    &&& forall|i: int| 0 <= i < file.len() ==> !is_separator(#[trigger] file[i]) && file[i] != ':'
}

proof fn lemma_file_ends_path(directory: Seq<char>, separator: char, file: Seq<char>)
    requires
        is_file(file),
    ensures
        ends_in_name(directory.push(separator) + file),
{
    assert((directory.push(separator) + file).last() == file[file.len() - 1]);
}

proof fn lemma_end_of_path(
    directory: Seq<char>,
    separator: char,
    file: Seq<char>,
    name: Seq<char>,
    start: int,
    end: int,
)
    requires
        is_file(file),
        ends_path(directory.push(separator) + file, name, start, end),
    ensures
        end == directory.len() + 1 + file.len(),
{
    let path = directory.push(separator) + file;
    assert(path[path.len() - 1] == file[file.len() - 1]);
}

proof fn lemma_after_separator(
    directory: Seq<char>,
    separator: char,
    file: Seq<char>,
    name: Seq<char>,
    start: int,
    end: int,
)
    requires
        is_file(file),
        goes_on(directory.push(separator) + file),
        separator == '/' || start > directory.len(),
        ends_path(directory.push(separator) + file, name, start, end),
    ensures
        name == file,
{
    let path = directory.push(separator) + file;
    let at = directory.len() as int;
    lemma_end_of_path(directory, separator, file, name, start, end);
    if start <= at {
        assert(name[at - start] == '/');
    } else {
        if start > at + 1 {
            assert(path[start - 1] == file[start - at - 2]);
        }
        assert(path.subrange(start, end) =~= file);
    }
}

/// A name with a dot and an extension has that name for its stem, where the extension has no dot.
pub proof fn law_stem_drops_the_extension(name: Seq<char>, extension: Seq<char>)
    requires
        name.len() > 0,
        !extension.contains('.'),
    ensures
        stem(name.push('.') + extension) == name,
{
    let whole = name.push('.') + extension;
    lemma_last_dot(name, extension);
    assert(whole.take(name.len() as int) =~= name);
}

proof fn lemma_last_dot(name: Seq<char>, extension: Seq<char>)
    requires
        !extension.contains('.'),
    ensures
        last_dot(name.push('.') + extension) == name.len(),
    decreases extension.len(),
{
    let whole = name.push('.') + extension;
    if extension.len() == 0 {
        assert(whole =~= name.push('.'));
    } else {
        let before = extension.drop_last();
        assert(whole.drop_last() =~= name.push('.') + before);
        assert(extension[extension.len() - 1] != '.');
        assert forall|c: char| before.contains(c) implies extension.contains(c) by {
            let k = choose|k: int| 0 <= k < before.len() && before[k] == c;
            assert(extension[k] == c);
        }
        lemma_last_dot(name, before);
    }
}

/// A file is asked for its description first, then for the name of its product, the short one, its
/// internal name and its original name; in a language and a code page, four digits each.
pub proof fn law_properties_are_asked_for_in_order(page: LangCodePage, index: nat)
    ensures
        VERSION_KEYS == 5,
        version_key_text(0) == "FileDescription"@,
        version_key_text(1) == "ProductName"@,
        version_key_text(2) == "ProductShortName"@,
        version_key_text(3) == "InternalName"@,
        version_key_text(4) == "OriginalFilename"@,
        version_query_text(page, index) == text_laws::joined(
            seq![
                "\\StringFileInfo\\"@,
                text::four_digits(page.w_language as nat),
                text::four_digits(page.w_code_page as nat),
                "\\"@,
                version_key_text(index),
            ],
        ),
{
    reveal_with_fuel(text_laws::joined_to, 6);
}

/// A name without a dot is its own stem, and so is one whose only dot is its first character.
pub proof fn law_stem_without_an_extension(name: Seq<char>)
    requires
        !name.contains('.'),
    ensures
        stem(name) == name,
        stem(seq!['.'] + name) == seq!['.'] + name,
{
    lemma_no_dot(name);
    lemma_last_dot(Seq::empty(), name);
    assert(Seq::<char>::empty().push('.') + name =~= seq!['.'] + name);
}

proof fn lemma_no_dot(name: Seq<char>)
    requires
        !name.contains('.'),
    ensures
        last_dot(name) < 0,
    decreases name.len(),
{
    if name.len() > 0 {
        let before = name.drop_last();
        assert(name[name.len() - 1] != '.');
        assert forall|c: char| before.contains(c) implies name.contains(c) by {
            let k = choose|k: int| 0 <= k < before.len() && before[k] == c;
            assert(name[k] == c);
        }
        lemma_no_dot(before);
    }
}

/// A basename is the last component without its extension, and empty where there is none.
pub proof fn law_basename_is_the_stem_of_a_name(path: Seq<char>, result: Seq<char>)
    requires
        may_be_basename(path, result),
        result.len() > 0,
    ensures
        exists|name: Seq<char>| #[trigger] stem(name) == result && may_be_file_name(
            path,
            Some(name),
        ),
{
    let name = choose|name: Option<Seq<char>>| #[trigger]
        may_be_file_name(path, name) && result == basename(name);
    assert(stem(name->0) == result);
}

} // verus!
