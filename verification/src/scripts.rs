//! The script engine's decisions: which scripts are selected for a run,
//! how a script file's header is extracted, and how a script's command
//! line is rendered from its call format. Reading script files and
//! running the commands happen outside, around this module.

use vstd::prelude::*;
use crate::input::ScriptsRequired;
use crate::ip::Ip;
use crate::textnum::chars_of;
use crate::textnum::dec_str_of;
use crate::textnum::match_at;

verus! {

/// Whether a character counts as white space for trimming; the result
/// depends on the character alone.
pub uninterp spec fn whitespace_of(c: char) -> bool;

/// Relies on char::is_whitespace: whether the character has the Unicode
/// white space property.
#[verifier::external_body]
fn char_is_whitespace(c: char) -> (r: bool)
    ensures
        r == whitespace_of(c),
{
    c.is_whitespace()
}

/// The sequence with its leading white space removed.
pub open spec fn spec_trim_start(s: Seq<char>) -> Seq<char>
    decreases s.len(),
{
    if s.len() > 0 && whitespace_of(s[0]) {
        spec_trim_start(s.skip(1))
    } else {
        s
    }
}

/// The sequence with its trailing white space removed.
pub open spec fn spec_trim_end(s: Seq<char>) -> Seq<char>
    decreases s.len(),
{
    if s.len() > 0 && whitespace_of(s.last()) {
        spec_trim_end(s.drop_last())
    } else {
        s
    }
}

/// The sequence with white space removed from both ends.
pub open spec fn spec_trim(s: Seq<char>) -> Seq<char> {
    spec_trim_end(spec_trim_start(s))
}

/// Trim white space from both ends.
fn trim_chars(s: &Vec<char>) -> (r: Vec<char>)
    ensures
        r@ == spec_trim(s@),
{
    let n = s.len();
    proof {
        assert(s@.skip(0) =~= s@);
    }
    let mut lo: usize = 0;
    while lo < n && char_is_whitespace(s[lo])
        invariant
            0 <= lo <= n,
            n == s@.len(),
            spec_trim_start(s@) == spec_trim_start(s@.skip(lo as int)),
        decreases n - lo,
    {
        proof {
            assert(s@.skip(lo as int)[0] == s@[lo as int]);
            assert(s@.skip(lo as int).skip(1) =~= s@.skip(lo + 1));
        }
        lo = lo + 1;
    }
    proof {
        if lo < n {
            assert(s@.skip(lo as int)[0] == s@[lo as int]);
        }
        assert(spec_trim_start(s@) == s@.skip(lo as int));
    }
    let mut hi: usize = n;
    while hi > lo && char_is_whitespace(s[hi - 1])
        invariant
            lo <= hi <= n,
            n == s@.len(),
            spec_trim_start(s@) == s@.skip(lo as int),
            spec_trim_end(s@.skip(lo as int)) == spec_trim_end(
                s@.subrange(lo as int, hi as int),
            ),
        decreases hi,
    {
        proof {
            let cur = s@.subrange(lo as int, hi as int);
            assert(cur.last() == s@[hi - 1]);
            assert(cur.drop_last() =~= s@.subrange(lo as int, hi - 1));
        }
        hi = hi - 1;
    }
    proof {
        let cur = s@.subrange(lo as int, hi as int);
        if hi > lo {
            assert(cur.last() == s@[hi - 1]);
        }
        assert(spec_trim_end(cur) == cur);
    }
    let mut out: Vec<char> = Vec::new();
    let mut i: usize = lo;
    while i < hi
        invariant
            lo <= i <= hi <= n,
            n == s@.len(),
            out@ =~= s@.subrange(lo as int, i as int),
        decreases hi - i,
    {
        out.push(s[i]);
        i = i + 1;
    }
    proof {
        assert(out@ =~= s@.subrange(lo as int, hi as int));
    }
    out
}

/// The sequence with every number-sign character removed.
pub open spec fn spec_strip_hashes(s: Seq<char>) -> Seq<char>
    decreases s.len(),
{
    if s.len() == 0 {
        Seq::empty()
    } else if s.last() == '#' {
        spec_strip_hashes(s.drop_last())
    } else {
        spec_strip_hashes(s.drop_last()).push(s.last())
    }
}

/// Remove every number-sign character.
fn strip_hashes(s: &Vec<char>) -> (r: Vec<char>)
    ensures
        r@ == spec_strip_hashes(s@),
{
    let mut out: Vec<char> = Vec::new();
    let n = s.len();
    let mut i: usize = 0;
    while i < n
        invariant
            0 <= i <= n,
            n == s@.len(),
            out@ == spec_strip_hashes(s@.take(i as int)),
        decreases n - i,
    {
        proof {
            assert(s@.take(i + 1).drop_last() =~= s@.take(i as int));
            assert(s@.take(i + 1).last() == s@[i as int]);
        }
        let c = s[i];
        if c != '#' {
            out.push(c);
        }
        i = i + 1;
    }
    proof {
        assert(s@.take(n as int) =~= s@);
    }
    out
}

/// One cleaned header line: number signs removed, then trimmed, then a
/// line break.
pub open spec fn spec_header_line(l: Seq<char>) -> Seq<char> {
    spec_trim(spec_strip_hashes(l)) + seq!['\n']
}

/// The header text hidden in comment lines: of the lines after the
/// first, every line up to the first that does not open with a number
/// sign, each cleaned.
pub open spec fn spec_header_from(lines: Seq<Seq<char>>, i: int) -> Seq<char>
    decreases lines.len() - i,
{
    if i < 1 || i >= lines.len() || lines[i].len() == 0 || lines[i][0] != '#' {
        Seq::empty()
    } else {
        spec_header_line(lines[i]) + spec_header_from(lines, i + 1)
    }
}

/// Extract the header of a script file from its lines: skip the first
/// line, then collect each comment line — number signs removed and the
/// rest trimmed — until the first line that is no comment.
pub fn script_header_from_lines(lines: &Vec<String>) -> (r: String)
    ensures
        r@ == spec_header_from(lines.deep_view(), 1),
{
    let mut out = String::new();
    let n = lines.len();
    let mut i: usize = 1;
    while i < n
        invariant
            1 <= i <= n || (n == 0 && i == 1),
            n == lines@.len(),
            spec_header_from(lines.deep_view(), 1) == out@ + spec_header_from(
                lines.deep_view(),
                i as int,
            ),
        ensures
            spec_header_from(lines.deep_view(), 1) == out@,
        decreases n - i,
    {
        let cs = chars_of(lines[i].as_str());
        proof {
            assert(lines.deep_view()[i as int] == lines@[i as int]@);
        }
        if cs.len() == 0 {
            proof {
                assert(spec_header_from(lines.deep_view(), i as int) =~= Seq::<char>::empty());
            }
            break ;
        }
        if cs[0] != '#' {
            proof {
                assert(spec_header_from(lines.deep_view(), i as int) =~= Seq::<char>::empty());
            }
            break ;
        }
        let cleaned = trim_chars(&strip_hashes(&cs));
        let m = cleaned.len();
        let ghost pre = out@;
        let mut j: usize = 0;
        while j < m
            invariant
                0 <= j <= m,
                m == cleaned@.len(),
                out@ == pre + cleaned@.take(j as int),
            decreases m - j,
        {
            proof {
                assert((pre + cleaned@.take(j as int)).push(cleaned@[j as int]) =~= pre
                    + cleaned@.take(j + 1));
            }
            out.push(cleaned[j]);
            j = j + 1;
        }
        proof {
            assert(cleaned@.take(m as int) =~= cleaned@);
        }
        out.push('\n');
        proof {
            assert(out@ =~= pre + spec_header_line(lines.deep_view()[i as int]));
        }
        i = i + 1;
    }
    out
}

/// A parsed script file: where it lives, its tags and authorship, the
/// port it triggers on, the separator for the port list, and the call
/// format of its command line.
#[derive(Debug, Clone)]
pub struct ScriptFile {
    pub path: Option<String>,
    pub tags: Option<Vec<String>>,
    pub developer: Option<Vec<String>>,
    pub port: Option<String>,
    pub ports_separator: Option<String>,
    pub call_format: Option<String>,
}

/// The fields of the built-in script: an nmap call over the found
/// ports, tagged as approved and default.
pub open spec fn is_default_script(r: ScriptFile) -> bool {
    &&& r.path is None
    &&& r.port is None
    &&& (r.developer matches Some(d) && d.deep_view() == seq![
        "RustScan"@,
        "https://github.com/RustScan"@,
    ])
    &&& (r.tags matches Some(t) && t.deep_view() == seq![
        "core_approved"@,
        "RustScan"@,
        "default"@,
    ])
    &&& (r.ports_separator matches Some(s) && s@ == ","@)
    &&& (r.call_format matches Some(c) && c@ == "nmap -vvv -p {{port}} -{{ipversion}} {{ip}}"@)
}

impl ScriptFile {
    /// The built-in script.
    pub fn default_script() -> (r: ScriptFile)
        ensures
            is_default_script(r),
    {
        let mut tags: Vec<String> = Vec::new();
        tags.push(String::from_str("core_approved"));
        tags.push(String::from_str("RustScan"));
        tags.push(String::from_str("default"));
        let mut developer: Vec<String> = Vec::new();
        developer.push(String::from_str("RustScan"));
        developer.push(String::from_str("https://github.com/RustScan"));
        let r = ScriptFile {
            path: None,
            tags: Some(tags),
            developer: Some(developer),
            port: None,
            ports_separator: Some(String::from_str(",")),
            call_format: Some(String::from_str("nmap -vvv -p {{port}} -{{ipversion}} {{ip}}")),
        };
        proof {
            assert(r.tags->Some_0.deep_view() =~= seq![
                "core_approved"@,
                "RustScan"@,
                "default"@,
            ]);
            assert(r.developer->Some_0.deep_view() =~= seq![
                "RustScan"@,
                "https://github.com/RustScan"@,
            ]);
        }
        r
    }
}

/// A script configuration: the tags a script must carry to be selected,
/// and where the scripts live.
#[derive(Debug, Clone)]
pub struct ScriptConfig {
    pub tags: Option<Vec<String>>,
    pub ports: Option<Vec<String>>,
    pub developer: Option<Vec<String>>,
    pub directory: Option<String>,
}

/// Whether a script carries tags and every one of them appears in the
/// configured tag list.
pub open spec fn spec_script_selected(s: ScriptFile, config_tags: Seq<Seq<char>>) -> bool {
    s.tags matches Some(ts) && forall|i: int|
        0 <= i < ts@.len() ==> config_tags.contains(ts@[i]@)
}

/// The scripts whose tags all appear in the configured tag list, in
/// order.
pub open spec fn spec_filter_scripts(scripts: Seq<ScriptFile>, config_tags: Seq<Seq<char>>) -> Seq<
    ScriptFile,
>
    decreases scripts.len(),
{
    if scripts.len() == 0 {
        Seq::empty()
    } else {
        let rest = spec_filter_scripts(scripts.drop_last(), config_tags);
        if spec_script_selected(scripts.last(), config_tags) {
            rest.push(scripts.last())
        } else {
            rest
        }
    }
}

/// Whether the list holds a string with these characters.
fn contains_str_value(v: &Vec<String>, s: &String) -> (r: bool)
    ensures
        r == v.deep_view().contains(s@),
{
    let n = v.len();
    let mut i: usize = 0;
    while i < n
        invariant
            0 <= i <= n,
            n == v@.len(),
            forall|j: int| 0 <= j < i ==> v@[j]@ != s@,
        decreases n - i,
    {
        if v[i].eq(s) {
            proof {
                assert(v.deep_view()[i as int] == s@);
            }
            return true;
        }
        i = i + 1;
    }
    proof {
        assert forall|j: int| 0 <= j < v.deep_view().len() implies v.deep_view()[j] != s@ by {
            assert(v.deep_view()[j] == v@[j]@);
        }
    }
    false
}

/// Keep the scripts whose tags all appear in the configured tag list.
pub fn filter_scripts(scripts: Vec<ScriptFile>, config_tags: &Vec<String>) -> (r: Vec<
    ScriptFile,
>)
    ensures
        r@ == spec_filter_scripts(scripts@, config_tags.deep_view()),
{
    let mut out: Vec<ScriptFile> = Vec::new();
    let mut rest = scripts;
    let ghost all = rest@;
    while rest.len() > 0
        invariant
            rest@.len() <= all.len(),
            rest@ == all.skip(all.len() - rest@.len()),
            out@ == spec_filter_scripts(
                all.take(all.len() - rest@.len()),
                config_tags.deep_view(),
            ),
        decreases rest@.len(),
    {
        let ghost p = all.len() - rest@.len();
        proof {
            assert(all.skip(p)[0] == all[p]);
            assert(all.take(p + 1).drop_last() =~= all.take(p));
            assert(all.take(p + 1).last() == all[p]);
        }
        let s = rest.remove(0);
        proof {
            assert(s == all[p]);
            assert(rest@ =~= all.skip(p + 1));
        }
        let selected: bool = match &s.tags {
            Some(ts) => {
                let m = ts.len();
                let mut all_in = true;
                let mut j: usize = 0;
                while j < m
                    invariant
                        0 <= j <= m,
                        m == ts@.len(),
                        all_in <==> (forall|t: int|
                            0 <= t < j ==> config_tags.deep_view().contains(ts@[t]@)),
                    decreases m - j,
                {
                    if !contains_str_value(config_tags, &ts[j]) {
                        all_in = false;
                    }
                    j = j + 1;
                }
                all_in
            },
            None => false,
        };
        proof {
            assert(selected == spec_script_selected(all[p], config_tags.deep_view()));
        }
        if selected {
            out.push(s);
        }
    }
    proof {
        assert(all.take(all.len() as int) =~= all);
    }
    out
}

/// The scripts a run selects: none, the built-in script, or — for a
/// custom run — the parsed scripts whose tags all appear in the
/// configured tag list (no tags configured selects nothing).
pub fn select_scripts(
    scripts: &ScriptsRequired,
    config_tags: &Option<Vec<String>>,
    parsed: Vec<ScriptFile>,
) -> (r: Vec<ScriptFile>)
    ensures
        scripts == ScriptsRequired::NoScripts ==> r@ == Seq::<ScriptFile>::empty(),
        scripts == ScriptsRequired::Default ==> r@.len() == 1 && is_default_script(r@[0]),
        scripts == ScriptsRequired::Custom && config_tags is None ==> r@ == Seq::<
            ScriptFile,
        >::empty(),
        scripts == ScriptsRequired::Custom && config_tags is Some ==> r@
            == spec_filter_scripts(parsed@, config_tags->Some_0.deep_view()),
{
    match scripts {
        ScriptsRequired::NoScripts => Vec::new(),
        ScriptsRequired::Default => {
            let mut v: Vec<ScriptFile> = Vec::new();
            v.push(ScriptFile::default_script());
            v
        },
        ScriptsRequired::Custom => {
            match config_tags {
                Some(ts) => filter_scripts(parsed, ts),
                None => Vec::new(),
            }
        },
    }
}

/// The text with every occurrence of a pattern replaced, scanning left
/// to right without revisiting replaced text.
pub open spec fn spec_replace(s: Seq<char>, pat: Seq<char>, rep: Seq<char>) -> Seq<char>
    decreases s.len(),
{
    if pat.len() == 0 || s.len() < pat.len() {
        s
    } else if s.take(pat.len() as int) == pat {
        rep + spec_replace(s.skip(pat.len() as int), pat, rep)
    } else {
        seq![s[0]] + spec_replace(s.skip(1), pat, rep)
    }
}

/// Replace every occurrence of a pattern.
fn replace_chars(s: &Vec<char>, pat: &Vec<char>, rep: &Vec<char>) -> (r: Vec<char>)
    requires
        pat@.len() >= 1,
    ensures
        r@ == spec_replace(s@, pat@, rep@),
{
    let mut out: Vec<char> = Vec::new();
    let n = s.len();
    let pl = pat.len();
    let mut i: usize = 0;
    proof {
        assert(s@.skip(0) =~= s@);
    }
    while i < n
        invariant
            0 <= i <= n,
            n == s@.len(),
            pl == pat@.len(),
            pl >= 1,
            spec_replace(s@, pat@, rep@) == out@ + spec_replace(s@.skip(i as int), pat@, rep@),
        decreases n - i,
    {
        let ghost tail = s@.skip(i as int);
        if pl <= n - i && match_at(s, pat, i) {
            proof {
                assert(tail.take(pl as int) =~= s@.subrange(i as int, i + pl));
                assert(tail.skip(pl as int) =~= s@.skip(i + pl));
            }
            let ghost pre = out@;
            let mut j: usize = 0;
            let rl = rep.len();
            while j < rl
                invariant
                    0 <= j <= rl,
                    rl == rep@.len(),
                    out@ == pre + rep@.take(j as int),
                decreases rl - j,
            {
                proof {
                    assert((pre + rep@.take(j as int)).push(rep@[j as int]) =~= pre + rep@.take(
                        j + 1,
                    ));
                }
                out.push(rep[j]);
                j = j + 1;
            }
            proof {
                assert(rep@.take(rl as int) =~= rep@);
            }
            i = i + pl;
        } else {
            proof {
                assert(tail.take(pl as int) != pat@ || tail.len() < pl) by {
                    if i + pl <= n {
                        assert(tail.take(pl as int) =~= s@.subrange(i as int, i + pl));
                    } else {
                        assert(tail.len() < pl);
                    }
                }
                assert(tail[0] == s@[i as int]);
                assert(tail.skip(1) =~= s@.skip(i + 1));
            }
            out.push(s[i]);
            i = i + 1;
        }
    }
    proof {
        assert(s@.skip(n as int) =~= Seq::<char>::empty());
    }
    out
}

/// The found ports joined by the separator, as decimal text.
pub open spec fn spec_ports_join(ports: Seq<u16>, sep: Seq<char>) -> Seq<char>
    decreases ports.len(),
{
    if ports.len() == 0 {
        Seq::empty()
    } else if ports.len() == 1 {
        dec_str_of(ports[0] as nat)
    } else {
        spec_ports_join(ports.drop_last(), sep) + sep + dec_str_of(ports.last() as nat)
    }
}

/// Join the found ports with the separator.
fn ports_join(ports: &Vec<u16>, sep: &Vec<char>) -> (r: String)
    ensures
        r@ == spec_ports_join(ports@, sep@),
{
    let mut out = String::new();
    let n = ports.len();
    let mut i: usize = 0;
    while i < n
        invariant
            0 <= i <= n,
            n == ports@.len(),
            out@ == spec_ports_join(ports@.take(i as int), sep@),
        decreases n - i,
    {
        proof {
            assert(ports@.take(i + 1).drop_last() =~= ports@.take(i as int));
            assert(ports@.take(i + 1).last() == ports@[i as int]);
        }
        if i > 0 {
            let ghost pre = out@;
            let m = sep.len();
            let mut j: usize = 0;
            while j < m
                invariant
                    0 <= j <= m,
                    m == sep@.len(),
                    out@ == pre + sep@.take(j as int),
                decreases m - j,
            {
                proof {
                    assert((pre + sep@.take(j as int)).push(sep@[j as int]) =~= pre + sep@.take(
                        j + 1,
                    ));
                }
                out.push(sep[j]);
                j = j + 1;
            }
            proof {
                assert(sep@.take(m as int) =~= sep@);
            }
        }
        crate::textnum::push_dec_u128(ports[i] as u128, &mut out);
        proof {
            assert(out@ =~= spec_ports_join(ports@.take(i + 1), sep@));
        }
        i = i + 1;
    }
    proof {
        assert(ports@.take(n as int) =~= ports@);
    }
    out
}

/// A script ready to run against one target: the script path, the
/// target, the found ports, and the call details from its file.
#[derive(Debug, Clone)]
pub struct Script {
    pub path: Option<String>,
    pub ip: Ip,
    pub open_ports: Vec<u16>,
    pub trigger_port: Option<String>,
    pub ports_separator: Option<String>,
    pub tags: Option<Vec<String>>,
    pub call_format: Option<String>,
}

/// The port text of a script call: the trigger port if the file names
/// one, else the found ports joined by the separator (a comma when the
/// file names none).
pub open spec fn spec_ports_text(
    open_ports: Seq<u16>,
    trigger_port: Option<Seq<char>>,
    sep: Option<Seq<char>>,
) -> Seq<char> {
    match trigger_port {
        Some(t) => t,
        None => spec_ports_join(
            open_ports,
            match sep {
                Some(s) => s,
                None => ","@,
            },
        ),
    }
}

/// The command line of a script: its call format with the script path,
/// the target, the port text, and the address family filled in.
pub open spec fn spec_rendered_command(
    format: Seq<char>,
    path: Option<Seq<char>>,
    ip_text: Seq<char>,
    ipversion: Seq<char>,
    ports_text: Seq<char>,
) -> Seq<char> {
    let a = spec_replace(format, "{{ip}}"@, ip_text);
    let b = spec_replace(a, "{{port}}"@, ports_text);
    let c = spec_replace(b, "{{ipversion}}"@, ipversion);
    match path {
        Some(p) => spec_replace(c, "{{script}}"@, p),
        None => c,
    }
}

impl Script {
    /// Assemble a script call from its file's details and one scan
    /// result.
    pub fn build(
        path: Option<String>,
        ip: Ip,
        open_ports: Vec<u16>,
        trigger_port: Option<String>,
        ports_separator: Option<String>,
        tags: Option<Vec<String>>,
        call_format: Option<String>,
    ) -> (r: Self)
        ensures
            r.path == path,
            r.ip == ip,
            r.open_ports == open_ports,
            r.trigger_port == trigger_port,
            r.ports_separator == ports_separator,
            r.tags == tags,
            r.call_format == call_format,
    {
        Self { path, ip, open_ports, trigger_port, ports_separator, tags, call_format }
    }

    /// Render the command line to execute: the call format with its
    /// placeholders filled from this call. A missing call format is
    /// refused. The target's text form comes from the caller, which
    /// formats addresses.
    pub fn render_command(&self, ip_text: &str) -> (r: Result<String, String>)
        ensures
            self.call_format is None ==> (r matches Err(e) && e@
                == "Failed to parse execution format."@),
            self.call_format matches Some(f) ==> (r matches Ok(cmd) && cmd@
                == spec_rendered_command(
                f@,
                match self.path {
                    Some(p) => Some(p@),
                    None => None,
                },
                ip_text@,
                (if self.ip.spec_is_v4() {
                    "4"@
                } else {
                    "6"@
                }),
                spec_ports_text(
                    self.open_ports@,
                    match self.trigger_port {
                        Some(t) => Some(t@),
                        None => None,
                    },
                    match self.ports_separator {
                        Some(s) => Some(s@),
                        None => None,
                    },
                ),
            )),
    {
        let format = match &self.call_format {
            Some(f) => f,
            None => {
                return Err(String::from_str("Failed to parse execution format."));
            },
        };
        let ports_text: String = match &self.trigger_port {
            Some(t) => t.clone(),
            None => {
                let sep: Vec<char> = match &self.ports_separator {
                    Some(s) => chars_of(s.as_str()),
                    None => chars_of(","),
                };
                ports_join(&self.open_ports, &sep)
            },
        };
        let ipversion = match self.ip {
            Ip::V4(_) => "4",
            Ip::V6(_) => "6",
        };
        proof {
            reveal_strlit("{{ip}}");
            reveal_strlit("{{port}}");
            reveal_strlit("{{ipversion}}");
            reveal_strlit("{{script}}");
        }
        let f0 = chars_of(format.as_str());
        let a = replace_chars(&f0, &chars_of("{{ip}}"), &chars_of(ip_text));
        let b = replace_chars(&a, &chars_of("{{port}}"), &chars_of(ports_text.as_str()));
        let c = replace_chars(&b, &chars_of("{{ipversion}}"), &chars_of(ipversion));
        let done: Vec<char> = match &self.path {
            Some(p) => replace_chars(&c, &chars_of("{{script}}"), &chars_of(p.as_str())),
            None => c,
        };
        let mut cmd = String::new();
        let m = done.len();
        let mut j: usize = 0;
        while j < m
            invariant
                0 <= j <= m,
                m == done@.len(),
                cmd@ == done@.take(j as int),
            decreases m - j,
        {
            proof {
                assert(done@.take(j as int).push(done@[j as int]) =~= done@.take(j + 1));
            }
            cmd.push(done[j]);
            j = j + 1;
        }
        proof {
            assert(cmd@ =~= done@);
        }
        Ok(cmd)
    }
}

} // verus!
