//! Application records assembled from desktop entries or macOS bundles.

use vstd::prelude::*;

use crate::desktop_entry::DesktopEntry;
use crate::serworse::find_char;
use crate::text::chars_to_string;

verus! {

/// A launchable application: a command with its arguments, the display
/// texts, and the name of an icon the host may still have to resolve.
#[derive(Clone, PartialEq, Debug)]
pub struct App {
    pub cmd: String,
    pub args: Vec<String>,
    pub working_dir: Option<String>,
    pub name: String,
    pub subname: Option<String>,
    pub icon: Option<String>,
}

/// The non-empty space-separated words of a text, folded one character at
/// a time.
pub open spec fn spec_words(s: Seq<char>, i: int, cur: Seq<char>, out: Seq<Seq<char>>) -> Seq<
    Seq<char>,
>
    decreases s.len() - i,
{
    if i < 0 || i >= s.len() {
        if cur.len() > 0 {
            out.push(cur)
        } else {
            out
        }
    } else if s[i] == ' ' {
        spec_words(
            s,
            i + 1,
            Seq::empty(),
            if cur.len() > 0 {
                out.push(cur)
            } else {
                out
            },
        )
    } else {
        spec_words(s, i + 1, cur.push(s[i]), out)
    }
}

/// The command of an exec line: everything before the first space, or the
/// whole line when it has none.
pub open spec fn spec_cmd_of(e: Seq<char>) -> Seq<char> {
    let p = find_char(e, ' ', 0);
    if 0 <= p < e.len() {
        e.take(p)
    } else {
        e
    }
}

/// The arguments of an exec line: its non-empty words after the first
/// space; a line without a space yields one empty argument.
pub open spec fn spec_args_of(e: Seq<char>) -> Seq<Seq<char>> {
    let p = find_char(e, ' ', 0);
    if 0 <= p < e.len() {
        spec_words(e.skip(p + 1), 0, Seq::empty(), Seq::empty())
    } else {
        seq![Seq::empty()]
    }
}

impl App {
    /// Builds an application from a parsed desktop entry: the exec line
    /// splits into command and arguments, the other fields carry over.
    pub fn from(desktop_entry: DesktopEntry) -> (r: App)
        ensures
            r.cmd@ == spec_cmd_of(desktop_entry.exec_cmd@),
            r.args.deep_view() == spec_args_of(desktop_entry.exec_cmd@),
            r.working_dir == desktop_entry.working_dir,
            r.name == desktop_entry.name,
            r.subname == desktop_entry.generic_name,
            r.icon == desktop_entry.icon,
    {
        let ghost ev = desktop_entry.exec_cmd@;
        let line = &desktop_entry.exec_cmd;
        let n = line.as_str().unicode_len();
        let mut p: usize = 0;
        while p < n && line.as_str().get_char(p) != ' '
            invariant
                p <= n,
                n == ev.len(),
                ev == line@,
                forall|t: int| 0 <= t < p ==> #[trigger] ev[t] != ' ',
            decreases n - p,
        {
            p += 1;
        }
        proof {
            crate::serworse::lemma_find_char_is(ev, ' ', p as int);
        }
        let cmd: String;
        let mut args: Vec<String> = Vec::new();
        if p < n {
            cmd = line.as_str().substring_char(0, p).to_owned();
            proof {
                assert(cmd@ =~= ev.take(p as int));
            }
            let ghost tail = ev.skip(p + 1 as int);
            let mut cur: Vec<char> = Vec::new();
            let mut i: usize = p + 1;
            proof {
                assert(args.deep_view() =~= Seq::<Seq<char>>::empty());
            }
            while i < n
                invariant
                    p + 1 <= i <= n,
                    n == ev.len(),
                    ev == line@,
                    tail == ev.skip(p + 1 as int),
                    spec_words(tail, 0, Seq::empty(), Seq::empty()) == spec_words(
                        tail,
                        i - p - 1,
                        cur@,
                        args.deep_view(),
                    ),
                decreases n - i,
            {
                let c = line.as_str().get_char(i);
                let ghost precur = cur@;
                let ghost preargs = args.deep_view();
                proof {
                    assert(tail[i - p - 1] == ev[i as int]);
                }
                if c == ' ' {
                    if cur.len() > 0 {
                        let piece = chars_to_string(&cur);
                        let ghost pre = args.deep_view();
                        args.push(piece);
                        cur = Vec::new();
                        proof {
                            assert(args.deep_view() =~= pre.push(piece@));
                        }
                    }
                } else {
                    cur.push(c);
                }
                proof {
                    if precur.len() == 0 {
                        assert(precur =~= Seq::<char>::empty());
                    }
                    assert(spec_words(tail, i - p - 1, precur, preargs) == spec_words(
                        tail,
                        i - p,
                        cur@,
                        args.deep_view(),
                    ));
                }
                i += 1;
            }
            if cur.len() > 0 {
                let piece = chars_to_string(&cur);
                let ghost pre = args.deep_view();
                args.push(piece);
                proof {
                    assert(args.deep_view() =~= pre.push(piece@));
                }
            }
        } else {
            cmd = desktop_entry.exec_cmd;
            args.push(String::new());
            proof {
                assert(args.deep_view() =~= seq![Seq::<char>::empty()]);
            }
        }
        App {
            cmd,
            args,
            working_dir: desktop_entry.working_dir,
            name: desktop_entry.name,
            subname: desktop_entry.generic_name,
            icon: desktop_entry.icon,
        }
    }
}

/// A macOS application bundle.
pub struct MacApp {
    pub name: String,
    pub path: String,
}

#[derive(Debug)]
pub enum MacAppError {
    IconPathWasWrong,
}

/// Where the last path segment starts: just after the last slash, or the
/// start of the path when it has none.
pub open spec fn spec_seg_start(s: Seq<char>) -> int
    decreases s.len(),
{
    if s.len() == 0 {
        0
    } else if s.last() == '/' {
        s.len() as int
    } else {
        spec_seg_start(s.drop_last())
    }
}

proof fn lemma_seg_start(s: Seq<char>)
    ensures
        0 <= spec_seg_start(s) <= s.len(),
        spec_seg_start(s) > 0 ==> s[spec_seg_start(s) - 1] == '/',
        forall|t: int| spec_seg_start(s) <= t < s.len() ==> #[trigger] s[t] != '/',
    decreases s.len(),
{
    if s.len() > 0 && s.last() != '/' {
        lemma_seg_start(s.drop_last());
        assert(forall|t: int| 0 <= t < s.len() - 1 ==> s.drop_last()[t] == #[trigger] s[t]);
    }
}

proof fn lemma_seg_start_is(s: Seq<char>, j: int)
    requires
        0 <= j <= s.len(),
        j > 0 ==> s[j - 1] == '/',
        forall|t: int| j <= t < s.len() ==> #[trigger] s[t] != '/',
    ensures
        spec_seg_start(s) == j,
{
    lemma_seg_start(s);
    let r = spec_seg_start(s);
    if r < j {
        assert(s[j - 1] != '/');
    }
    if j < r {
        assert(s[r - 1] != '/');
    }
}

impl MacApp {
    /// Names a bundle after the last path segment with its `.app` suffix
    /// stripped. The path must name a `.app` bundle.
    pub fn new_from_path(path: String) -> (r: Result<MacApp, MacAppError>)
        requires
            ({
                let seg = path@.skip(spec_seg_start(path@));
                seg.len() >= 4 && seg.skip(seg.len() - 4) == ".app"@
            }),
        ensures
            r matches Ok(ma) && ma.path == path && ma.name@ == path@.skip(
                spec_seg_start(path@),
            ).take(path@.skip(spec_seg_start(path@)).len() - 4),
    {
        let ghost pv = path@;
        let n = path.as_str().unicode_len();
        let mut seg_start: usize = 0;
        let mut i: usize = 0;
        while i < n
            invariant
                i <= n,
                n == pv.len(),
                pv == path@,
                seg_start <= i,
                seg_start > 0 ==> pv[seg_start - 1] == '/',
                forall|t: int| seg_start <= t < i ==> #[trigger] pv[t] != '/',
            decreases n - i,
        {
            if path.as_str().get_char(i) == '/' {
                seg_start = i + 1;
            }
            i += 1;
        }
        proof {
            lemma_seg_start_is(pv, seg_start as int);
            assert(pv.skip(seg_start as int).len() >= 4);
        }
        let name = path.as_str().substring_char(seg_start, n - 4).to_owned();
        proof {
            assert(name@ =~= pv.skip(seg_start as int).take(pv.skip(seg_start as int).len() - 4));
        }
        Ok(MacApp { name, path })
    }
}

} // verus!
