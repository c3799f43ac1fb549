//! Parsing of freedesktop desktop-entry text: the line format of group
//! headings and `key=value` pairs, the semicolon-separated string lists,
//! the escape rules of the Exec key, and the assembly of a full entry.

use vstd::prelude::*;

use crate::serworse::KvMap;
use crate::serworse::find_char;
use crate::serworse::spec_get;
use crate::serworse::spec_insert;
use crate::serworse::spec_lines;
use crate::text::chars_to_string;
use crate::text::opt_str_view;
use crate::text::opt_view;
use crate::text::push_char;
use crate::text::str_eq;

verus! {

/// One auxiliary action a desktop entry offers.
#[derive(Debug, PartialEq)]
pub struct Action {
    pub name: String,
    pub icon_path: Option<String>,
    pub exec_cmd: Option<String>,
}

/// The mathematical shape of an action.
pub struct ActionModel {
    pub name: Seq<char>,
    pub icon_path: Option<Seq<char>>,
    pub exec_cmd: Option<Seq<char>>,
}

/// The model of one action.
pub open spec fn action_model(a: Action) -> ActionModel {
    ActionModel { name: a.name@, icon_path: opt_view(a.icon_path), exec_cmd: opt_view(a.exec_cmd) }
}

#[derive(PartialEq, Eq, Structural, Debug, Clone, Copy)]
pub enum EntryType {
    Application,
    Link,
    Directory,
}

/// A parsed desktop entry.
#[derive(Debug)]
pub struct DesktopEntry {
    pub entry_type: EntryType,
    pub version: Option<String>,
    pub name: String,
    pub generic_name: Option<String>,
    pub comment: Option<String>,
    pub icon: Option<String>,
    pub only_show_in: Vec<String>,
    pub not_show_in: Vec<String>,
    pub try_exec: Option<String>,
    pub exec_cmd: String,
    pub working_dir: Option<String>,
    pub terminal: bool,
    pub action_list: Vec<Action>,
    pub categories: Vec<String>,
    pub keywords: Vec<String>,
    pub url: Option<String>,
}

impl Default for DesktopEntry {
    fn default() -> (r: DesktopEntry)
        ensures
            r.entry_type == EntryType::Application,
            r.version is None,
            r.name@ == Seq::<char>::empty(),
            r.generic_name is None,
            r.comment is None,
            r.icon is None,
            r.only_show_in@ == Seq::<String>::empty(),
            r.not_show_in@ == Seq::<String>::empty(),
            r.try_exec is None,
            r.exec_cmd@ == Seq::<char>::empty(),
            r.working_dir is None,
            r.terminal == false,
            r.action_list@ == Seq::<Action>::empty(),
            r.categories@ == Seq::<String>::empty(),
            r.keywords@ == Seq::<String>::empty(),
            r.url is None,
    {
        DesktopEntry {
            entry_type: EntryType::Application,
            version: None,
            name: String::new(),
            generic_name: None,
            comment: None,
            icon: None,
            only_show_in: Vec::new(),
            not_show_in: Vec::new(),
            try_exec: None,
            exec_cmd: String::new(),
            working_dir: None,
            terminal: false,
            action_list: Vec::new(),
            categories: Vec::new(),
            keywords: Vec::new(),
            url: None,
        }
    }
}

#[derive(Debug)]
pub enum ParseError {
    MissingRequiredField,
    BadGroupHeader,
    CouldNotLoadFile,
    DesktopEntryHeaderNotFound,
    UnknownApplicationType,
    NoDisplayTrue,
    ActionMissingName,
    MissingDataDirsEnvVar,
}

/// The grouped key-value structure a desktop-entry text denotes, folded
/// over its lines: a line with `=` stores a pair in the current group; a
/// `#` line is a comment; a `[` line closes the current group (when it
/// holds pairs) and opens a new one named by the line stripped of its
/// first and last character; anything else is skipped. Pairs before the
/// first heading land under the empty group name.
pub open spec fn spec_entry_lines(
    ls: Seq<Seq<char>>,
    heading: Seq<char>,
    current: Seq<(Seq<char>, Seq<char>)>,
    main: Seq<(Seq<char>, Seq<(Seq<char>, Seq<char>)>)>,
) -> Result<Seq<(Seq<char>, Seq<(Seq<char>, Seq<char>)>)>, ParseError>
    decreases ls.len(),
{
    if ls.len() == 0 {
        if current.len() > 0 {
            Ok(spec_insert(main, heading, current))
        } else {
            Ok(main)
        }
    } else {
        let l = ls[0];
        let p = find_char(l, '=', 0);
        if 0 <= p < l.len() {
            spec_entry_lines(
                ls.drop_first(),
                heading,
                spec_insert(current, l.take(p), l.skip(p + 1)),
                main,
            )
        } else if l.len() > 0 && l[0] == '#' {
            spec_entry_lines(ls.drop_first(), heading, current, main)
        } else if l.len() > 0 && l[0] == '[' {
            if l.len() < 2 {
                Err(ParseError::BadGroupHeader)
            } else {
                let m2 = if current.len() > 0 {
                    spec_insert(main, heading, current)
                } else {
                    main
                };
                spec_entry_lines(
                    ls.drop_first(),
                    l.subrange(1, l.len() - 1),
                    Seq::empty(),
                    m2,
                )
            }
        } else {
            spec_entry_lines(ls.drop_first(), heading, current, main)
        }
    }
}

/// What parsing a desktop-entry text into groups yields.
pub open spec fn spec_parse_entry(input: Seq<char>) -> Result<
    Seq<(Seq<char>, Seq<(Seq<char>, Seq<char>)>)>,
    ParseError,
> {
    spec_entry_lines(spec_lines(input), Seq::empty(), Seq::empty(), Seq::empty())
}

/// Parses raw desktop-entry text into its group structure, exactly as
/// `spec_parse_entry` says.
#[verifier::rlimit(50)]
pub fn parse_entry_from_string(input: &str) -> (r: Result<KvMap<KvMap<String>>, ParseError>)
    ensures
        match r {
            Ok(m) => spec_parse_entry(input@) == Ok::<_, ParseError>(m@) && m.wf(),
            Err(e) => spec_parse_entry(input@) matches Err(pe) && e == pe,
        },
{
    let ghost whole = input@;
    let n = input.unicode_len();
    let mut main: KvMap<KvMap<String>> = KvMap::new();
    let mut current: KvMap<String> = KvMap::new();
    let mut heading = String::new();
    let mut pos: usize = 0;
    proof {
        assert(whole.skip(0) =~= whole);
    }
    while pos < n
        invariant
            pos <= n,
            n == whole.len(),
            whole == input@,
            main.wf(),
            current.wf(),
            spec_parse_entry(whole) == spec_entry_lines(
                spec_lines(whole.skip(pos as int)),
                heading@,
                current@,
                main@,
            ),
        decreases n - pos,
    {
        let ghost rem = whole.skip(pos as int);
        // Find the end of the line.
        let mut j: usize = pos;
        while j < n && input.get_char(j) != '\n'
            invariant
                pos <= j <= n,
                n == whole.len(),
                whole == input@,
                forall|t: int| pos <= t < j ==> #[trigger] whole[t] != '\n',
            decreases n - j,
        {
            j += 1;
        }
        proof {
            assert(forall|t: int| 0 <= t < j - pos ==> #[trigger] rem[t] != '\n');
            if j < n {
                assert(rem[j - pos] == '\n');
            }
            crate::serworse::lemma_find_char_is(rem, '\n', j - pos);
        }
        let line_end: usize = if j > pos && input.get_char(j - 1) == '\r' {
            j - 1
        } else {
            j
        };
        let ghost line = crate::serworse::strip_cr(rem.take(j - pos));
        proof {
            assert(rem.take(j - pos) =~= whole.subrange(pos as int, j as int));
            if j > pos && whole[j - 1] == '\r' {
                assert(rem.take(j - pos).last() == '\r');
                assert(line =~= whole.subrange(pos as int, line_end as int));
            } else {
                assert(line =~= whole.subrange(pos as int, line_end as int));
            }
        }
        // Look for the key-value separator.
        let mut k: usize = pos;
        while k < line_end && input.get_char(k) != '='
            invariant
                pos <= k <= line_end,
                line_end <= n,
                n == whole.len(),
                whole == input@,
                forall|t: int| pos <= t < k ==> #[trigger] whole[t] != '=',
            decreases line_end - k,
        {
            k += 1;
        }
        proof {
            assert(forall|t: int| 0 <= t < k - pos ==> #[trigger] line[t] != '=');
            if k < line_end {
                assert(line[k - pos] == '=');
            }
            crate::serworse::lemma_find_char_is(line, '=', k - pos);
        }
        let newpos: usize = if j < n {
            j + 1
        } else {
            n
        };
        let ghost tail = spec_lines(whole.skip(newpos as int));
        proof {
            if j < n {
                assert(rem.skip(j - pos + 1) =~= whole.skip(newpos as int));
                assert(spec_lines(rem) == seq![line] + tail);
            } else {
                assert(whole.skip(newpos as int) =~= Seq::<char>::empty());
                assert(spec_lines(rem) == seq![line]);
                assert(seq![line] =~= seq![line] + tail);
            }
            assert((seq![line] + tail).drop_first() =~= tail);
            assert((seq![line] + tail)[0] == line);
        }
        if k < line_end {
            let key = input.substring_char(pos, k);
            let val = input.substring_char(k + 1, line_end);
            proof {
                assert(line.take(k - pos) =~= key@);
                assert(line.skip(k - pos + 1) =~= val@);
            }
            let ghost precur = current@;
            current.insert(key.to_owned(), val.to_owned());
            proof {
                assert(spec_entry_lines(seq![line] + tail, heading@, precur, main@)
                    == spec_entry_lines(tail, heading@, current@, main@));
            }
        } else if line_end > pos && input.get_char(pos) == '#' {
            proof {
                assert(line[0] == '#');
                assert(spec_entry_lines(seq![line] + tail, heading@, current@, main@)
                    == spec_entry_lines(tail, heading@, current@, main@));
            }
        } else if line_end > pos && input.get_char(pos) == '[' {
            proof {
                assert(line[0] == '[');
            }
            if line_end - pos < 2 {
                proof {
                    assert(line.len() < 2);
                }
                return Err(ParseError::BadGroupHeader);
            }
            let ghost precur = current@;
            let ghost premain = main@;
            let ghost preheading = heading@;
            if current.len() > 0 {
                main.insert(heading, current);
                current = KvMap::new();
            }
            heading = input.substring_char(pos + 1, line_end - 1).to_owned();
            proof {
                assert(line.subrange(1, line.len() - 1) =~= heading@);
                assert(current@ =~= Seq::<(Seq<char>, Seq<char>)>::empty());
                assert(spec_entry_lines(seq![line] + tail, preheading, precur, premain)
                    == spec_entry_lines(tail, heading@, current@, main@));
            }
        } else {
            proof {
                assert(spec_entry_lines(seq![line] + tail, heading@, current@, main@)
                    == spec_entry_lines(tail, heading@, current@, main@));
            }
        }
        pos = newpos;
    }
    proof {
        assert(whole.skip(n as int) =~= Seq::<char>::empty());
    }
    if current.len() > 0 {
        main.insert(heading, current);
    }
    Ok(main)
}

/// The pieces of a semicolon-separated list, folded one character at a
/// time: a semicolon closes the current piece unless escaped by a
/// preceding backslash, which turns it into a literal semicolon; a
/// trailing non-empty piece is kept.
pub open spec fn spec_split_list(
    s: Seq<char>,
    i: int,
    result: Seq<Seq<char>>,
    current: Seq<char>,
) -> Seq<Seq<char>>
    decreases s.len() - i,
{
    if i < 0 || i >= s.len() {
        if current.len() > 0 {
            result.push(current)
        } else {
            result
        }
    } else if s[i] == ';' {
        if current.len() > 0 && current.last() == '\\' {
            spec_split_list(s, i + 1, result, current.drop_last().push(';'))
        } else {
            spec_split_list(s, i + 1, result.push(current), Seq::empty())
        }
    } else {
        spec_split_list(s, i + 1, result, current.push(s[i]))
    }
}

/// What a semicolon-separated list denotes; an absent value is empty.
pub open spec fn spec_string_list(input: Option<Seq<char>>) -> Seq<Seq<char>> {
    match input {
        Some(s) => spec_split_list(s, 0, Seq::empty(), Seq::empty()),
        None => Seq::empty(),
    }
}

/// Splits a semicolon-separated value, exactly as `spec_string_list`
/// says.
pub fn parse_string_list(input: Option<&str>) -> (r: Vec<String>)
    ensures
        r.deep_view() == spec_string_list(opt_str_view(input)),
{
    let s: &str = match input {
        Some(s) => s,
        None => "",
    };
    let ghost sv = s@;
    proof {
        if input is None {
            reveal_strlit("");
            assert(sv =~= Seq::<char>::empty());
            assert(spec_split_list(sv, 0, Seq::empty(), Seq::empty()) == Seq::<Seq<char>>::empty());
        }
    }
    let n = s.unicode_len();
    let mut result: Vec<String> = Vec::new();
    let mut current: Vec<char> = Vec::new();
    let mut i: usize = 0;
    proof {
        assert(result.deep_view() =~= Seq::<Seq<char>>::empty());
    }
    while i < n
        invariant
            i <= n,
            n == sv.len(),
            sv == s@,
            spec_split_list(sv, 0, Seq::empty(), Seq::empty()) == spec_split_list(
                sv,
                i as int,
                result.deep_view(),
                current@,
            ),
        decreases n - i,
    {
        let c = s.get_char(i);
        if c == ';' {
            let esc = if current.len() > 0 {
                current[current.len() - 1] == '\\'
            } else {
                false
            };
            if esc {
                current.pop();
                current.push(';');
            } else {
                let piece = chars_to_string(&current);
                let ghost pre = result.deep_view();
                result.push(piece);
                current = Vec::new();
                proof {
                    assert(result.deep_view() =~= pre.push(piece@));
                }
            }
        } else {
            current.push(c);
        }
        i += 1;
    }
    if current.len() > 0 {
        let piece = chars_to_string(&current);
        let ghost pre = result.deep_view();
        result.push(piece);
        proof {
            assert(result.deep_view() =~= pre.push(piece@));
        }
    }
    result
}

/// The Exec-key value after unescaping, folded one character at a time: a
/// backslash escapes one of the quoting characters; `%%` is a literal
/// percent; `%i` substitutes the icon switch when an icon is known; `%c`
/// substitutes the display name when one is known; any other field code
/// vanishes.
pub open spec fn spec_exec_key(
    s: Seq<char>,
    icon: Option<Seq<char>>,
    name: Option<Seq<char>>,
    i: int,
    out: Seq<char>,
) -> Seq<char>
    decreases s.len() - i,
{
    if i < 0 || i >= s.len() {
        out
    } else if s[i] == '\\' {
        if i + 1 >= s.len() {
            spec_exec_key(s, icon, name, i + 1, out)
        } else {
            let nc = s[i + 1];
            let out2 = if nc == '\\' || nc == '`' || nc == '"' || nc == '$' || nc == '%' {
                out.push(nc)
            } else {
                out
            };
            spec_exec_key(s, icon, name, i + 2, out2)
        }
    } else if s[i] == '%' {
        if i + 1 >= s.len() {
            spec_exec_key(s, icon, name, i + 1, out)
        } else {
            let nc = s[i + 1];
            let out2 = if nc == '%' {
                out.push('%')
            } else if nc == 'i' {
                match icon {
                    Some(ic) => out + "--icon "@ + ic,
                    None => out,
                }
            } else if nc == 'c' {
                match name {
                    Some(nm) => out + nm,
                    None => out,
                }
            } else {
                out
            };
            spec_exec_key(s, icon, name, i + 2, out2)
        }
    } else {
        spec_exec_key(s, icon, name, i + 1, out.push(s[i]))
    }
}

/// Unescapes an Exec key value, exactly as `spec_exec_key` says.
pub fn parse_exec_key(input: &str, icon: Option<&str>, name: Option<&str>) -> (r: String)
    ensures
        r@ == spec_exec_key(input@, opt_str_view(icon), opt_str_view(name), 0, Seq::empty()),
{
    let ghost sv = input@;
    let ghost iv = opt_str_view(icon);
    let ghost nv = opt_str_view(name);
    let n = input.unicode_len();
    let mut out = String::new();
    let mut i: usize = 0;
    while i < n
        invariant
            i <= n,
            n == sv.len(),
            sv == input@,
            iv == opt_str_view(icon),
            nv == opt_str_view(name),
            spec_exec_key(sv, iv, nv, 0, Seq::empty()) == spec_exec_key(sv, iv, nv, i as int, out@),
        decreases n - i,
    {
        let c = input.get_char(i);
        if c == '\\' {
            if i + 1 < n {
                let nc = input.get_char(i + 1);
                if nc == '\\' || nc == '`' || nc == '"' || nc == '$' || nc == '%' {
                    push_char(&mut out, nc);
                }
                i += 2;
            } else {
                i += 1;
            }
        } else if c == '%' {
            if i + 1 < n {
                let nc = input.get_char(i + 1);
                if nc == '%' {
                    push_char(&mut out, '%');
                } else if nc == 'i' {
                    match icon {
                        Some(ic) => {
                            let ghost pre = out@;
                            out.append("--icon ");
                            out.append(ic);
                            proof {
                                assert(out@ =~= pre + "--icon "@ + ic@);
                            }
                        },
                        None => {},
                    }
                } else if nc == 'c' {
                    match name {
                        Some(nm) => {
                            out.append(nm);
                        },
                        None => {},
                    }
                } else {
                }
                i += 2;
            } else {
                i += 1;
            }
        } else {
            push_char(&mut out, c);
            i += 1;
        }
    }
    out
}

/// The actions a names list selects: a name whose `Desktop Action` group
/// is missing, or whose group lacks a `Name` key, is skipped.
pub open spec fn spec_actions(
    mv: Seq<(Seq<char>, Seq<(Seq<char>, Seq<char>)>)>,
    names: Seq<Seq<char>>,
) -> Seq<ActionModel>
    decreases names.len(),
{
    if names.len() == 0 {
        Seq::empty()
    } else {
        let rest = spec_actions(mv, names.drop_first());
        match spec_get(mv, "Desktop Action "@ + names[0]) {
            None => rest,
            Some(asec) => match spec_get(asec, "Name"@) {
                None => rest,
                Some(nm) => seq![
                    ActionModel {
                        name: nm,
                        icon_path: spec_get(asec, "Icon"@),
                        exec_cmd: spec_get(asec, "Exec"@),
                    },
                ] + rest,
            },
        }
    }
}

/// Whether the main group hides the entry.
pub open spec fn spec_nodisplay(sec: Seq<(Seq<char>, Seq<char>)>) -> bool {
    spec_get(sec, "NoDisplay"@) == Some("true"@) || spec_get(sec, "Hidden"@) == Some("true"@)
}

/// The entry type the main group declares.
pub open spec fn spec_entry_type(sec: Seq<(Seq<char>, Seq<char>)>) -> Result<
    EntryType,
    ParseError,
> {
    match spec_get(sec, "Type"@) {
        Some(t) => if t == "Application"@ {
            Ok(EntryType::Application)
        } else if t == "Link"@ {
            Ok(EntryType::Link)
        } else if t == "Directory"@ {
            Ok(EntryType::Directory)
        } else {
            Err(ParseError::UnknownApplicationType)
        },
        None => Err(ParseError::MissingRequiredField),
    }
}

fn cloned_field(sec: &KvMap<String>, key: &str) -> (r: Option<String>)
    ensures
        opt_view(r) == spec_get(sec@, key@),
{
    match sec.get(key) {
        Some(v) => Some(v.clone()),
        None => None,
    }
}

fn field_is(sec: &KvMap<String>, key: &str, value: &str) -> (r: bool)
    ensures
        r == (spec_get(sec@, key@) == Some(value@)),
{
    match sec.get(key) {
        Some(v) => str_eq(v.as_str(), value),
        None => false,
    }
}

/// Assembles a desktop entry from its group structure, exactly as the
/// spec functions above say, reporting the first missing or unusable
/// required field.
#[verifier::rlimit(60)]
pub fn parse_from_hashmap(input: KvMap<KvMap<String>>) -> (r: Result<DesktopEntry, ParseError>)
    ensures
        ({
            let mv = input@;
            match spec_get(mv, "Desktop Entry"@) {
                None => r matches Err(e) && e == ParseError::DesktopEntryHeaderNotFound,
                Some(sec) => {
                    if spec_nodisplay(sec) {
                        r matches Err(e) && e == ParseError::NoDisplayTrue
                    } else {
                        match spec_entry_type(sec) {
                            Err(pe) => r matches Err(e) && e == pe,
                            Ok(ty) => {
                                if spec_get(sec, "Name"@) is None {
                                    r matches Err(e) && e == ParseError::MissingRequiredField
                                } else if spec_get(sec, "Exec"@) is None {
                                    r matches Err(e) && e == ParseError::MissingRequiredField
                                } else if ty == EntryType::Link && spec_get(sec, "URL"@) is None {
                                    r matches Err(e) && e == ParseError::MissingRequiredField
                                } else {
                                    r matches Ok(en) && {
                                        &&& en.entry_type == ty
                                        &&& opt_view(en.version) == spec_get(sec, "Version"@)
                                        &&& spec_get(sec, "Name"@) == Some(en.name@)
                                        &&& opt_view(en.try_exec) == spec_get(sec, "TryExec"@)
                                        &&& spec_get(sec, "Exec"@) matches Some(ex)
                                            && en.exec_cmd@ == spec_exec_key(
                                            ex,
                                            spec_get(sec, "Icon"@),
                                            spec_get(sec, "Name"@),
                                            0,
                                            Seq::empty(),
                                        )
                                        &&& opt_view(en.generic_name) == spec_get(
                                            sec,
                                            "GenericName"@,
                                        )
                                        &&& opt_view(en.comment) == spec_get(sec, "Comment"@)
                                        &&& opt_view(en.icon) == spec_get(sec, "Icon"@)
                                        &&& en.only_show_in.deep_view() == spec_string_list(
                                            spec_get(sec, "OnlyShowIn"@),
                                        )
                                        &&& en.not_show_in.deep_view() == spec_string_list(
                                            spec_get(sec, "NotShowIn"@),
                                        )
                                        &&& opt_view(en.working_dir) == spec_get(sec, "Path"@)
                                        &&& en.terminal == (spec_get(sec, "Terminal"@) == Some(
                                            "true"@,
                                        ))
                                        &&& en.categories.deep_view() == spec_string_list(
                                            spec_get(sec, "Categories"@),
                                        )
                                        &&& en.keywords.deep_view() == spec_string_list(
                                            spec_get(sec, "Keywords"@),
                                        )
                                        &&& opt_view(en.url) == spec_get(sec, "URL"@)
                                        &&& en.action_list@.map_values(
                                            |a: Action| action_model(a),
                                        ) == spec_actions(
                                            mv,
                                            spec_string_list(spec_get(sec, "Actions"@)),
                                        )
                                    }
                                }
                            },
                        }
                    }
                },
            }
        }),
{
    let ghost mv = input@;
    let sec: &KvMap<String> = match input.get("Desktop Entry") {
        Some(s) => s,
        None => {
            return Err(ParseError::DesktopEntryHeaderNotFound);
        },
    };
    if field_is(sec, "NoDisplay", "true") || field_is(sec, "Hidden", "true") {
        return Err(ParseError::NoDisplayTrue);
    }
    let entry_type: EntryType = match sec.get("Type") {
        Some(t) => {
            if str_eq(t.as_str(), "Application") {
                EntryType::Application
            } else if str_eq(t.as_str(), "Link") {
                EntryType::Link
            } else if str_eq(t.as_str(), "Directory") {
                EntryType::Directory
            } else {
                return Err(ParseError::UnknownApplicationType);
            }
        },
        None => {
            return Err(ParseError::MissingRequiredField);
        },
    };
    let name: String = match sec.get("Name") {
        Some(nm) => nm.clone(),
        None => {
            return Err(ParseError::MissingRequiredField);
        },
    };
    let exec_raw: String = match sec.get("Exec") {
        Some(ex) => ex.clone(),
        None => {
            return Err(ParseError::MissingRequiredField);
        },
    };
    let icon = cloned_field(sec, "Icon");
    let exec_cmd = parse_exec_key(
        exec_raw.as_str(),
        match &icon {
            Some(ic) => Some(ic.as_str()),
            None => None,
        },
        Some(name.as_str()),
    );
    let url: Option<String> = match sec.get("URL") {
        Some(u) => Some(u.clone()),
        None => {
            if entry_type == EntryType::Link {
                return Err(ParseError::MissingRequiredField);
            }
            None
        },
    };
    let only_show_in = parse_string_list(
        match sec.get("OnlyShowIn") {
            Some(v) => Some(v.as_str()),
            None => None,
        },
    );
    let not_show_in = parse_string_list(
        match sec.get("NotShowIn") {
            Some(v) => Some(v.as_str()),
            None => None,
        },
    );
    let categories = parse_string_list(
        match sec.get("Categories") {
            Some(v) => Some(v.as_str()),
            None => None,
        },
    );
    let keywords = parse_string_list(
        match sec.get("Keywords") {
            Some(v) => Some(v.as_str()),
            None => None,
        },
    );
    let action_names = parse_string_list(
        match sec.get("Actions") {
            Some(v) => Some(v.as_str()),
            None => None,
        },
    );
    let ghost all_names = action_names.deep_view();
    let mut action_list: Vec<Action> = Vec::new();
    let na = action_names.len();
    let mut i: usize = 0;
    proof {
        assert(all_names.skip(0) =~= all_names);
        assert(action_list@.map_values(|a: Action| action_model(a)) + spec_actions(
            mv,
            all_names,
        ) =~= spec_actions(mv, all_names));
    }
    while i < na
        invariant
            i <= na,
            na == all_names.len(),
            all_names == action_names.deep_view(),
            mv == input@,
            forall|t: int| 0 <= t < na ==> all_names[t] == #[trigger] action_names@[t]@,
            spec_actions(mv, all_names) == action_list@.map_values(|a: Action| action_model(a))
                + spec_actions(mv, all_names.skip(i as int)),
        decreases na - i,
    {
        let mut akey = String::from_str("Desktop Action ");
        akey.append(action_names[i].as_str());
        proof {
            assert(akey@ == "Desktop Action "@ + all_names[i as int]);
            assert(all_names.skip(i as int)[0] == all_names[i as int]);
            assert(all_names.skip(i as int).drop_first() =~= all_names.skip(i + 1 as int));
        }
        match input.get(akey.as_str()) {
            None => {},
            Some(asec) => {
                match asec.get("Name") {
                    None => {},
                    Some(nm) => {
                        let ghost pre = action_list@.map_values(|a: Action| action_model(a));
                        let act = Action {
                            name: nm.clone(),
                            icon_path: cloned_field(asec, "Icon"),
                            exec_cmd: cloned_field(asec, "Exec"),
                        };
                        let ghost am = action_model(act);
                        action_list.push(act);
                        proof {
                            assert(action_list@.map_values(|a: Action| action_model(a)) =~= pre
                                + seq![am]);
                            let rest = spec_actions(mv, all_names.skip(i + 1 as int));
                            assert((pre + (seq![am] + rest)) =~= ((pre + seq![am]) + rest));
                        }
                    },
                }
            },
        }
        i += 1;
    }
    proof {
        assert(all_names.skip(na as int) =~= Seq::<Seq<char>>::empty());
        assert(action_list@.map_values(|a: Action| action_model(a)) + Seq::<ActionModel>::empty()
            =~= action_list@.map_values(|a: Action| action_model(a)));
    }
    Ok(
        DesktopEntry {
            entry_type,
            version: cloned_field(sec, "Version"),
            name,
            generic_name: cloned_field(sec, "GenericName"),
            comment: cloned_field(sec, "Comment"),
            icon,
            only_show_in,
            not_show_in,
            try_exec: cloned_field(sec, "TryExec"),
            exec_cmd,
            working_dir: cloned_field(sec, "Path"),
            terminal: field_is(sec, "Terminal", "true"),
            action_list,
            categories,
            keywords,
            url,
        },
    )
}


} // verus!
