//! Names derived from Windows service instance names and install roots.
//!
//! These pure functions can be tested on every platform.

use vstd::prelude::*;
use vstd::string::*;

use crate::text::{
    char_is_alphanumeric, char_lower, join2, range_text, same_text, text_trim_end, to_chars,
    CharClass,
};

verus! {

/// Returns the virtual service account name for a Windows service instance.
pub fn service_account(name: &str) -> (account: String)
    ensures
        account@ == "NT SERVICE\\"@ + name@,
{
    join2("NT SERVICE\\", name)
}

/// Returns the Windows Firewall rule name for a service instance.
pub fn firewall_rule_name(name: &str) -> (rule: String)
    ensures
        rule@ == name@ + " WSL TCP"@,
{
    join2(name, " WSL TCP")
}

/// The characters of service names.
pub open spec fn is_name_char(c: char) -> bool {
    crate::text::is_alphanumeric(c) || c == '-' || c == '_' || c == '.'
}

/// 1 to 256 characters that no shell treats specially.
pub open spec fn is_service_name(name: Seq<char>) -> bool {
    &&& 1 <= name.len() <= 256
    &&& forall|i: int| 0 <= i < name.len() ==> is_name_char(#[trigger] name[i])
}

/// What is said of a name that is refused.
pub open spec fn bad_service_name() -> Seq<char> {
    "service_name must be 1 to 256 characters of ASCII letters, digits, '-', '_' and '.'"@
}

/// Validates a service name before embedding it in PowerShell script strings or `sc.exe` arguments.
/// This name is embedded in PowerShell script strings for firewall rules and in `sc.exe` arguments,
/// so shell metacharacters are rejected here.
pub fn validate_service_name(name: &str) -> (r: Result<(), String>)
    ensures
        match r {
            Ok(()) => is_service_name(name@),
            Err(message) => !is_service_name(name@) && message@ == bad_service_name(),
        },
{
    let chars = to_chars(name);
    let mut valid = chars.len() > 0 && chars.len() <= 256;
    let mut i: usize = 0;
    while i < chars.len()
        invariant
            i <= chars@.len(),
            valid == (1 <= chars@.len() <= 256 && forall|j: int|
                0 <= j < i ==> is_name_char(#[trigger] chars@[j])),
        decreases chars@.len() - i,
    {
        let c = chars[i];
        if !(char_is_alphanumeric(c) || c == '-' || c == '_' || c == '.') {
            valid = false;
        }
        i += 1;
    }
    if valid {
        return Ok(());
    }
    Err(
        "service_name must be 1 to 256 characters of ASCII letters, digits, '-', '_' and '.'".to_owned(),
    )
}

/// What stands before the last path separator of `path`.
pub open spec fn before_last_separator(path: Seq<char>) -> Option<Seq<char>>
    decreases path.len(),
{
    if path.len() == 0 {
        None
    } else if CharClass::Separator.has(path.last()) {
        Some(path.drop_last())
    } else {
        before_last_separator(path.drop_last())
    }
}

/// `path` without the separators at its end.
pub open spec fn trimmed(path: Seq<char>) -> Seq<char> {
    crate::text::trim_end(path, CharClass::Separator)
}

/// The directory that holds `path`; empty where there is none. Repeated
/// separators count as one.
pub open spec fn parent(path: Seq<char>) -> Seq<char> {
    match before_last_separator(trimmed(path)) {
        Some(directory) => trimmed(directory),
        None => seq![],
    }
}

/// A character as it is compared in Windows paths.
pub open spec fn comparable_char(c: char) -> char {
    if c == '/' {
        '\\'
    } else {
        crate::text::lower(c)
    }
}

/// A path as it is compared: without separators at its end, with backslashes,
/// in lower case.
pub open spec fn comparable(path: Seq<char>) -> Seq<char> {
    trimmed(path).map_values(|c: char| comparable_char(c))
}

/// The directory of the configuration stands directly under `%ProgramData%`.
pub open spec fn is_under(program_data: Seq<char>, config_path: Seq<char>) -> bool {
    &&& parent(config_path).len() > 0
    &&& comparable(parent(parent(config_path))) == comparable(program_data)
}

/// What is said of a configuration that stands elsewhere.
pub open spec fn bad_configuration_path() -> Seq<char> {
    "the configuration must live in its own directory directly under %ProgramData%, e.g. C:\\ProgramData\\tegata\\config.toml"@
}

/// Returns the configuration's parent directory when it is directly under `%ProgramData%`.
pub fn install_root_under(program_data: &str, config_path: &str) -> (r: Result<String, String>)
    ensures
        match r {
            Ok(root) => is_under(program_data@, config_path@) && root@ == parent(config_path@),
            Err(message) => !is_under(program_data@, config_path@) && message@
                == bad_configuration_path(),
        },
{
    let config_directory = parent_directory(config_path);
    let install_root = parent_directory(config_directory.as_str());
    let normalized_program_data = normalize_for_comparison(program_data);
    let normalized_install_root = normalize_for_comparison(install_root.as_str());
    if !config_directory.as_str().is_empty() && same_text(
        normalized_install_root.as_str(),
        normalized_program_data.as_str(),
    ) {
        Ok(config_directory)
    } else {
        Err(
            "the configuration must live in its own directory directly under %ProgramData%, e.g. C:\\ProgramData\\tegata\\config.toml".to_owned(),
        )
    }
}

/// The directory that holds `path`.
pub fn parent_directory(path: &str) -> (r: String)
    ensures
        r@ == parent(path@),
{
    let path = text_trim_end(path, CharClass::Separator);
    let chars = to_chars(path.as_str());
    let mut end: usize = chars.len();
    assert(chars@.take(end as int) =~= chars@);
    while end > 0 && !CharClass::Separator.contains(chars[end - 1])
        invariant
            end <= chars@.len(),
            before_last_separator(chars@) == before_last_separator(chars@.take(end as int)),
        decreases end,
    {
        assert(chars@.take(end as int).drop_last() =~= chars@.take(end - 1));
        end -= 1;
    }
    if end == 0 {
        String::new()
    } else {
        let directory = range_text(chars.as_slice(), 0, end - 1);
        assert(chars@.take(end as int).drop_last() =~= directory@);
        text_trim_end(directory.as_str(), CharClass::Separator)
    }
}

/// `path` in the form in which Windows paths are compared.
pub fn normalize_for_comparison(path: &str) -> (r: String)
    ensures
        r@ == comparable(path@),
{
    let path = text_trim_end(path, CharClass::Separator);
    let chars = to_chars(path.as_str());
    let mut out = String::new();
    let mut i: usize = 0;
    let ghost whole = chars@.map_values(|c: char| comparable_char(c));
    assert(whole.take(0) =~= out@);
    while i < chars.len()
        invariant
            i <= chars@.len(),
            whole == chars@.map_values(|c: char| comparable_char(c)),
            out@ == whole.take(i as int),
        decreases chars@.len() - i,
    {
        let c = chars[i];
        if c == '/' {
            out.push('\\');
        } else {
            out.push(char_lower(c));
        }
        assert(whole.take(i + 1) =~= whole.take(i as int).push(whole[i as int]));
        i += 1;
    }
    assert(whole.take(i as int) =~= whole);
    out
}

proof fn lemma_before_last_separator(path: Seq<char>)
    ensures
        before_last_separator(path) matches Some(d) ==> d.is_prefix_of(path),
    decreases path.len(),
{
    if path.len() > 0 && !CharClass::Separator.has(path.last()) {
        lemma_before_last_separator(path.drop_last());
    }
}

/// The install root keeps its own spelling: it is the start of the
/// configuration's path, and it does not end in a separator.
pub proof fn law_install_root_is_a_prefix(config_path: Seq<char>)
    ensures
        parent(config_path).is_prefix_of(config_path),
        parent(config_path).len() > 0 ==> !CharClass::Separator.has(parent(config_path).last()),
{
    crate::text::lemma_trim_end(config_path, CharClass::Separator);
    lemma_before_last_separator(trimmed(config_path));
    match before_last_separator(trimmed(config_path)) {
        Some(d) => {
            crate::text::lemma_trim_end(d, CharClass::Separator);
        },
        None => {},
    }
}

/// Case, the kind of separators, and separators at the end do not matter when
/// `%ProgramData%` is compared.
pub proof fn law_program_data_spelling(a: Seq<char>, b: Seq<char>, config_path: Seq<char>)
    requires
        comparable(a) == comparable(b),
    ensures
        is_under(a, config_path) == is_under(b, config_path),
{
}

proof fn lemma_last_separator(directory: Seq<char>, separator: char, name: Seq<char>)
    requires
        separator == '\\' || separator == '/',
        forall|i: int| 0 <= i < name.len() ==> !CharClass::Separator.has(#[trigger] name[i]),
    ensures
        before_last_separator(directory.push(separator) + name) == Some(directory),
    decreases name.len(),
{
    let path = directory.push(separator) + name;
    if name.len() == 0 {
        assert(path =~= directory.push(separator));
        assert(path.drop_last() =~= directory);
    } else {
        assert(path.last() == name[name.len() - 1]);
        assert(path.drop_last() =~= directory.push(separator) + name.drop_last());
        assert forall|i: int| 0 <= i < name.drop_last().len() implies !CharClass::Separator.has(
            #[trigger] name.drop_last()[i],
        ) by {
            assert(name.drop_last()[i] == name[i]);
        }
        lemma_last_separator(directory, separator, name.drop_last());
    }
}

proof fn lemma_parent(directory: Seq<char>, separator: char, name: Seq<char>)
    requires
        separator == '\\' || separator == '/',
        directory.len() > 0 ==> !CharClass::Separator.has(directory.last()),
        name.len() > 0,
        forall|i: int| 0 <= i < name.len() ==> !CharClass::Separator.has(#[trigger] name[i]),
    ensures
        parent(directory.push(separator) + name) == directory,
        trimmed(directory) == directory,
{
    let path = directory.push(separator) + name;
    let none = Seq::<char>::empty();
    assert(path.last() == name[name.len() - 1]);
    assert(path + none =~= path);
    crate::text::lemma_trimmed_is(path, none, CharClass::Separator);
    assert(directory + none =~= directory);
    crate::text::lemma_trimmed_is(directory, none, CharClass::Separator);
    lemma_last_separator(directory, separator, name);
}

/// A configuration in a directory of its own directly under `%ProgramData%` is
/// accepted, and the directory is its root; one that lies deeper is refused.
pub proof fn law_configurations_lie_under_program_data(
    program_data: &str,
    directory: Seq<char>,
    file: Seq<char>,
    deeper: Seq<char>,
    separator: char,
    path: &str,
    deep_path: &str,
    accepted: Result<String, String>,
    refused: Result<String, String>,
)
    requires
        separator == '\\' || separator == '/',
        program_data@.len() > 0 ==> !CharClass::Separator.has(program_data@.last()),
        directory.len() > 0 && file.len() > 0 && deeper.len() > 0,
        forall|i: int|
            0 <= i < directory.len() ==> (#[trigger] directory[i]) != '\\' && directory[i] != '/',
        forall|i: int| 0 <= i < file.len() ==> (#[trigger] file[i]) != '\\' && file[i] != '/',
        forall|i: int| 0 <= i < deeper.len() ==> (#[trigger] deeper[i]) != '\\' && deeper[i] != '/',
        path@ == (program_data@.push(separator) + directory).push(separator) + file,
        deep_path@ == ((program_data@.push(separator) + directory).push(separator) + deeper).push(
            separator,
        ) + file,
        call_ensures(install_root_under, (program_data, path), accepted),
        call_ensures(install_root_under, (program_data, deep_path), refused),
    ensures
        accepted matches Ok(root) && root@ == program_data@ + seq![separator] + directory,
        refused is Err,
{
    let root = program_data@.push(separator) + directory;
    let below = root.push(separator) + deeper;
    assert(root.last() == directory[directory.len() - 1]);
    assert(below.last() == deeper[deeper.len() - 1]);
    lemma_parent(program_data@, separator, directory);
    lemma_parent(root, separator, file);
    lemma_parent(root, separator, deeper);
    lemma_parent(below, separator, file);
    assert(root =~= program_data@ + seq![separator] + directory);
    assert(comparable(root).len() == root.len());
    assert(comparable(program_data@).len() == program_data@.len());
}

/// The service is named with letters, digits, dashes, underscores and dots, and
/// its account and its rule are named after it.
pub proof fn law_services_are_named(
    name: &str,
    checked: Result<(), String>,
    account: String,
    rule: String,
    i: int,
)
    requires
        call_ensures(validate_service_name, (name,), checked),
        call_ensures(service_account, (name,), account),
        call_ensures(firewall_rule_name, (name,), rule),
    ensures
        checked is Ok ==> 1 <= name@.len() <= 256,
        checked is Ok && 0 <= i < name@.len() ==> {
            let c = name@[i];
            'a' <= c <= 'z' || 'A' <= c <= 'Z' || '0' <= c <= '9' || c == '-' || c == '_' || c
                == '.'
        },
        1 <= name@.len() <= 256 && (forall|k: int|
            0 <= k < name@.len() ==> {
                ||| 'a' <= (#[trigger] name@[k]) <= 'z'
                ||| 'A' <= name@[k] <= 'Z'
                ||| '0' <= name@[k] <= '9'
                ||| name@[k] == '-'
                ||| name@[k] == '_'
                ||| name@[k] == '.'
            }) ==> checked is Ok,
        account@ == "NT SERVICE\\"@ + name@,
        rule@ == name@ + " WSL TCP"@,
{
}

/// Paths are compared by their characters in lower case, with one kind of
/// separator, and without those at their end.
pub proof fn law_paths_are_compared(
    path: Seq<char>,
    ends: Seq<char>,
    written: &str,
    normal: String,
    i: int,
)
    requires
        written@ == path + ends,
        path.len() > 0 ==> path.last() != '\\' && path.last() != '/',
        forall|k: int| 0 <= k < ends.len() ==> (#[trigger] ends[k] == '\\' || ends[k] == '/'),
        call_ensures(normalize_for_comparison, (written,), normal),
    ensures
        normal@.len() == path.len(),
        0 <= i < path.len() ==> {
            &&& path[i] == '/' ==> normal@[i] == '\\'
            &&& 'A' <= path[i] <= 'Z' ==> normal@[i] as int == path[i] as int + 32
            &&& path[i] != '/' && !('A' <= path[i] <= 'Z') ==> normal@[i] == path[i]
        },
{
    crate::text::lemma_trimmed_is(path, ends, CharClass::Separator);
}

} // verus!
