//! launchd integration: plist text for managed LaunchAgents and for the
//! supervisor's own agent, `launchctl` output interpretation, and the service
//! status and stop decisions.  Running `launchctl` and touching files is left
//! to the caller, which hands in what it observed.

use vstd::prelude::*;
use vstd::string::StringExecFns;

use crate::journal::{LogLine, LogStream};
use crate::text::{
    chars_of, contains, contains_vec, find_char, is_whitespace, lines_of, parse_unsigned,
    parse_unsigned_chars, push_char, push_str, split_lines, starts_with, starts_with_vec, trim,
    trim_chars, trim_end_char, trim_end_char_vec, trim_start, trim_start_vec,
};

verus! {

/// Label of the supervisor's own LaunchAgent.
pub const SUPERVISOR_LABEL: &'static str = "com.my-supervisor.daemon";

// ---------------------------------------------------------------------------
// XML text escaping
// ---------------------------------------------------------------------------

pub open spec fn xml_escape_char(c: char) -> Seq<char> {
    if c == '&' {
        "&amp;"@
    } else if c == '<' {
        "&lt;"@
    } else if c == '>' {
        "&gt;"@
    } else if c == '"' {
        "&quot;"@
    } else if c == '\'' {
        "&apos;"@
    } else {
        seq![c]
    }
}

/// Minimal XML text escaping for plist string values.
pub open spec fn xml_escape(s: Seq<char>) -> Seq<char>
    decreases s.len(),
{
    if s.len() == 0 {
        Seq::empty()
    } else {
        xml_escape(s.drop_last()) + xml_escape_char(s.last())
    }
}

/// Escapes `&`, `<`, `>`, `"` and `'` as XML entities.
pub fn xml(s: &str) -> (r: String)
    ensures
        r@ == xml_escape(s@),
{
    let chars = chars_of(s);
    let mut out = String::new();
    let mut i: usize = 0;
    while i < chars.len()
        invariant
            i <= chars.len(),
            out@ == xml_escape(chars@.take(i as int)),
        decreases chars.len() - i,
    {
        let c = chars[i];
        proof {
            assert(chars@.take(i + 1).drop_last() == chars@.take(i as int));
            assert(chars@.take(i + 1).last() == c);
        }
        if c == '&' {
            push_str(&mut out, "&amp;");
        } else if c == '<' {
            push_str(&mut out, "&lt;");
        } else if c == '>' {
            push_str(&mut out, "&gt;");
        } else if c == '"' {
            push_str(&mut out, "&quot;");
        } else if c == '\'' {
            push_str(&mut out, "&apos;");
        } else {
            push_char(&mut out, c);
            proof {
                assert(out@ =~= xml_escape(chars@.take(i as int)) + seq![c]);
            }
        }
        i += 1;
    }
    proof {
        assert(chars@.take(chars@.len() as int) == chars@);
    }
    out
}

pub open spec fn is_markup_char(c: char) -> bool {
    c == '<' || c == '>' || c == '"' || c == '\''
}

/// Escaped text cannot close or open an element or an attribute: it holds
/// no `<`, `>`, `"` or `'`.
pub proof fn lemma_xml_escape_has_no_markup(s: Seq<char>)
    ensures
        forall|i: int| 0 <= i < xml_escape(s).len() ==> !is_markup_char(#[trigger] xml_escape(s)[i]),
    decreases s.len(),
{
    if s.len() > 0 {
        lemma_xml_escape_has_no_markup(s.drop_last());
        let p = xml_escape(s.drop_last());
        let e = xml_escape_char(s.last());
        reveal_strlit("&amp;");
        reveal_strlit("&lt;");
        reveal_strlit("&gt;");
        reveal_strlit("&quot;");
        reveal_strlit("&apos;");
        assert forall|i: int| 0 <= i < e.len() implies !is_markup_char(#[trigger] e[i]) by {}
        assert forall|i: int| 0 <= i < (p + e).len() implies !is_markup_char(#[trigger] (p + e)[i]) by {
            if i < p.len() {
                assert((p + e)[i] == p[i]);
            } else {
                assert((p + e)[i] == e[i - p.len()]);
            }
        }
    }
}

/// Text without special characters is written unchanged.
pub proof fn lemma_xml_escape_plain(s: Seq<char>)
    requires
        forall|i: int|
            0 <= i < s.len() ==> !is_markup_char(#[trigger] s[i]) && s[i] != '&',
    ensures
        xml_escape(s) == s,
    decreases s.len(),
{
    if s.len() > 0 {
        lemma_xml_escape_plain(s.drop_last());
        assert(s.drop_last() + seq![s.last()] =~= s);
    }
}

// ---------------------------------------------------------------------------
// launchctl output
// ---------------------------------------------------------------------------

/// The PID a single line of `launchctl` output reports: a line mentioning
/// `"PID"` or starting (after blanks) with `pid =`, whose text after the
/// first `=`, trimmed and without trailing `;`, is a `u32`.
pub open spec fn line_pid(line: Seq<char>) -> Option<nat> {
    if !(contains(line, "\"PID\""@) || starts_with(trim_start(line), "pid ="@)) {
        None
    } else {
        match find_char(line, '=') {
            None => None,
            Some(i) => parse_unsigned(trim_end_char(trim(line.skip(i + 1)), ';'), u32::MAX as nat),
        }
    }
}

/// The first line of `lines` that reports a PID.
pub open spec fn first_pid(lines: Seq<Seq<char>>) -> Option<nat>
    decreases lines.len(),
{
    if lines.len() == 0 {
        None
    } else {
        match line_pid(lines[0]) {
            Some(p) => Some(p),
            None => first_pid(lines.drop_first()),
        }
    }
}

pub open spec fn launchctl_pid_spec(output: Seq<char>) -> Option<nat> {
    first_pid(lines_of(output))
}

fn line_pid_exec(line: &Vec<char>) -> (r: Option<u32>)
    ensures
        r matches Some(p) ==> line_pid(line@) == Some(p as nat),
        r is None ==> line_pid(line@) is None,
{
    let quoted = chars_of("\"PID\"");
    let pid_eq = chars_of("pid =");
    let trimmed_start = trim_start_vec(line);
    if !(contains_vec(line, &quoted) || starts_with_vec(&trimmed_start, &pid_eq)) {
        return None;
    }
    let mut i: usize = 0;
    while i < line.len() && line[i] != '='
        invariant
            i <= line.len(),
            forall|j: int| 0 <= j < i ==> line@[j] != '=',
        decreases line.len() - i,
    {
        i += 1;
    }
    proof {
        crate::text::lemma_find_char_bounds(line@, '=');
    }
    if i == line.len() {
        proof {
            if let Some(k) = find_char(line@, '=') {
                assert(line@[k] == '=');
            }
        }
        return None;
    }
    proof {
        if let Some(k) = find_char(line@, '=') {
            assert(k == i) by {
                if k < i {
                    assert(line@[k] != '=');
                }
                if i < k {
                    assert(line@[i as int] != '=');
                }
            }
        }
    }
    let rest = crate::text::slice_vec(line, i + 1, line.len());
    proof {
        assert(rest@ =~= line@.skip(i + 1));
    }
    let value = trim_end_char_vec(&trim_chars(&rest), ';');
    match parse_unsigned_chars(value.as_slice(), 4294967295) {
        Some(p) => {
            let pid: u32 = p as u32;
            Some(pid)
        },
        None => None,
    }
}

/// The PID that `launchctl print`/`list` output reports for a running job
/// (a `"PID" = n;` or `pid = n` line), if any.
pub fn parse_launchctl_pid(output: &str) -> (r: Option<u32>)
    ensures
        r matches Some(p) ==> launchctl_pid_spec(output@) == Some(p as nat),
        r is None ==> launchctl_pid_spec(output@) is None,
{
    let chars = chars_of(output);
    let lines = split_lines(&chars);
    let ghost ls = lines@.map_values(|l: Vec<char>| l@);
    let mut i: usize = 0;
    proof {
        assert(ls.skip(0) =~= ls);
    }
    while i < lines.len()
        invariant
            i <= lines.len(),
            ls == lines@.map_values(|l: Vec<char>| l@),
            ls == lines_of(output@),
            first_pid(ls) == first_pid(ls.skip(i as int)),
        decreases lines.len() - i,
    {
        let ghost rest = ls.skip(i as int);
        proof {
            assert(rest[0] == lines@[i as int]@);
            assert(rest.drop_first() =~= ls.skip(i + 1));
        }
        match line_pid_exec(&lines[i]) {
            Some(p) => {
                proof {
                    assert(rest.len() > 0);
                    assert(line_pid(rest[0]) == Some(p as nat));
                }
                return Some(p);
            },
            None => {},
        }
        i += 1;
    }
    proof {
        assert(ls.skip(i as int) =~= Seq::<Seq<char>>::empty());
        assert(ls.skip(0) =~= ls);
    }
    None
}

// ---------------------------------------------------------------------------
// Paths
// ---------------------------------------------------------------------------

/// `PathBuf::push` on Unix text: an absolute `name` replaces the base;
/// otherwise a `/` separates them unless the base is empty or ends in one.
pub open spec fn join_path(base: Seq<char>, name: Seq<char>) -> Seq<char> {
    if name.len() > 0 && name[0] == '/' {
        name
    } else if base.len() == 0 || base.last() == '/' {
        base + name
    } else {
        base + seq!['/'] + name
    }
}

/// Joins a relative or absolute path component onto a base path.
pub fn join(base: &str, name: &str) -> (r: String)
    ensures
        r@ == join_path(base@, name@),
{
    let name_chars = chars_of(name);
    let base_chars = chars_of(base);
    if name_chars.len() > 0 && name_chars[0] == '/' {
        return crate::text::string_of(&name_chars);
    }
    let mut out = crate::text::string_of(&base_chars);
    if !(base_chars.len() == 0 || base_chars[base_chars.len() - 1] == '/') {
        push_char(&mut out, '/');
    }
    push_str(&mut out, name);
    out
}

// ---------------------------------------------------------------------------
// Plist text
// ---------------------------------------------------------------------------

/// What a managed LaunchAgent runs and how launchd treats it.  `env` is
/// written in the order given (the supervisor hands it in key order).
#[derive(Debug)]
pub struct AgentSpec {
    pub command: String,
    pub args: Vec<String>,
    pub env: Vec<(String, String)>,
    pub cwd: Option<String>,
    pub autostart: bool,
    pub restart_enabled: bool,
}

pub open spec fn opt_view(o: Option<String>) -> Option<Seq<char>> {
    match o {
        Some(s) => Some(s@),
        None => None,
    }
}

pub open spec fn string_views(v: Seq<String>) -> Seq<Seq<char>> {
    v.map_values(|s: String| s@)
}

pub open spec fn pair_views(v: Seq<(String, String)>) -> Seq<(Seq<char>, Seq<char>)> {
    v.map_values(|p: (String, String)| (p.0@, p.1@))
}

pub open spec fn agent_head() -> Seq<char> {
    "<?xml version=\"1.0\" encoding=\"UTF-8\"?>\n<!DOCTYPE plist PUBLIC \"-//Apple//DTD PLIST 1.0//EN\" \"http://www.apple.com/DTDs/PropertyList-1.0.dtd\">\n<plist version=\"1.0\">\n<dict>\n  <key>Label</key><string>"@
}

pub open spec fn argument_item(arg: Seq<char>) -> Seq<char> {
    "    <string>"@ + xml_escape(arg) + "</string>\n"@
}

pub open spec fn argument_items(args: Seq<Seq<char>>) -> Seq<char>
    decreases args.len(),
{
    if args.len() == 0 {
        Seq::empty()
    } else {
        argument_items(args.drop_last()) + argument_item(args.last())
    }
}

pub open spec fn env_item(pair: (Seq<char>, Seq<char>)) -> Seq<char> {
    "    <key>"@ + xml_escape(pair.0) + "</key><string>"@ + xml_escape(pair.1) + "</string>\n"@
}

pub open spec fn env_items(env: Seq<(Seq<char>, Seq<char>)>) -> Seq<char>
    decreases env.len(),
{
    if env.len() == 0 {
        Seq::empty()
    } else {
        env_items(env.drop_last()) + env_item(env.last())
    }
}

pub open spec fn env_block(env: Seq<(Seq<char>, Seq<char>)>) -> Seq<char> {
    if env.len() == 0 {
        Seq::empty()
    } else {
        "  <key>EnvironmentVariables</key>\n  <dict>\n"@ + env_items(env) + "  </dict>\n"@
    }
}

pub open spec fn cwd_block(cwd: Option<Seq<char>>) -> Seq<char> {
    match cwd {
        Some(dir) => "  <key>WorkingDirectory</key><string>"@ + xml_escape(dir) + "</string>\n"@,
        None => Seq::empty(),
    }
}

pub open spec fn bool_word(b: bool) -> Seq<char> {
    if b {
        "true"@
    } else {
        "false"@
    }
}

/// The LaunchAgent plist of a managed process.
pub open spec fn agent_plist(
    label: Seq<char>,
    command: Seq<char>,
    args: Seq<Seq<char>>,
    env: Seq<(Seq<char>, Seq<char>)>,
    cwd: Option<Seq<char>>,
    autostart: bool,
    keep_alive: bool,
    out_log: Seq<char>,
    err_log: Seq<char>,
) -> Seq<char> {
    agent_head() + xml_escape(label) + "</string>\n  <key>ProgramArguments</key>\n  <array>\n"@
        + argument_item(command) + argument_items(args) + "  </array>\n  <key>RunAtLoad</key><"@
        + bool_word(autostart) + "/>\n  <key>KeepAlive</key><"@ + bool_word(keep_alive) + "/>\n"@
        + cwd_block(cwd) + env_block(env) + "  <key>StandardOutPath</key><string>"@ + xml_escape(
        out_log,
    ) + "</string>\n  <key>StandardErrorPath</key><string>"@ + xml_escape(err_log)
        + "</string>\n</dict>\n</plist>\n"@
}

fn push_escaped(out: &mut String, value: &str)
    ensures
        final(out)@ == old(out)@ + xml_escape(value@),
{
    let e = xml(value);
    push_str(out, e.as_str());
}

fn bool_text(b: bool) -> (r: &'static str)
    ensures
        r@ == bool_word(b),
{
    if b {
        "true"
    } else {
        "false"
    }
}

fn push_argument_items(out: &mut String, args: &Vec<String>)
    ensures
        final(out)@ == old(out)@ + argument_items(string_views(args@)),
{
    let ghost before = out@;
    let mut i: usize = 0;
    proof {
        assert(string_views(args@).take(0) =~= Seq::<Seq<char>>::empty());
        assert(out@ =~= before + argument_items(string_views(args@).take(0)));
    }
    while i < args.len()
        invariant
            i <= args@.len(),
            out@ == before + argument_items(string_views(args@).take(i as int)),
        decreases args.len() - i,
    {
        let ghost prev = out@;
        push_str(out, "    <string>");
        push_escaped(out, args[i].as_str());
        push_str(out, "</string>\n");
        proof {
            let views = string_views(args@);
            assert(views.take(i + 1).drop_last() =~= views.take(i as int));
            assert(views.take(i + 1).last() == args@[i as int]@);
            assert(out@ =~= prev + argument_item(args@[i as int]@));
            assert(out@ =~= before + argument_items(views.take(i + 1)));
        }
        i += 1;
    }
    proof {
        assert(string_views(args@).take(args@.len() as int) =~= string_views(args@));
    }
}

fn push_env_block(out: &mut String, env: &Vec<(String, String)>)
    ensures
        final(out)@ == old(out)@ + env_block(pair_views(env@)),
{
    let ghost before_env = out@;
    if env.len() == 0 {
        proof {
            assert(out@ =~= before_env + env_block(pair_views(env@)));
        }
        return;
    }
    push_str(out, "  <key>EnvironmentVariables</key>\n  <dict>\n");
    let ghost before_items = out@;
    let mut k: usize = 0;
    proof {
        assert(out@ =~= before_items + env_items(pair_views(env@).take(0)));
    }
    while k < env.len()
        invariant
            k <= env@.len(),
            out@ == before_items + env_items(pair_views(env@).take(k as int)),
        decreases env.len() - k,
    {
        let ghost prev = out@;
        push_str(out, "    <key>");
        push_escaped(out, env[k].0.as_str());
        push_str(out, "</key><string>");
        push_escaped(out, env[k].1.as_str());
        push_str(out, "</string>\n");
        proof {
            let views = pair_views(env@);
            assert(views.take(k + 1).drop_last() =~= views.take(k as int));
            assert(views.take(k + 1).last() == (env@[k as int].0@, env@[k as int].1@));
            assert(out@ =~= prev + env_item((env@[k as int].0@, env@[k as int].1@)));
            assert(out@ =~= before_items + env_items(views.take(k + 1)));
        }
        k += 1;
    }
    push_str(out, "  </dict>\n");
    proof {
        assert(pair_views(env@).take(env@.len() as int) =~= pair_views(env@));
        assert(out@ =~= before_env + env_block(pair_views(env@)));
    }
}

fn push_cwd_block(out: &mut String, cwd: &Option<String>)
    ensures
        final(out)@ == old(out)@ + cwd_block(opt_view(*cwd)),
{
    let ghost before = out@;
    match cwd {
        Some(dir) => {
            push_str(out, "  <key>WorkingDirectory</key><string>");
            push_escaped(out, dir.as_str());
            push_str(out, "</string>\n");
            proof {
                assert(out@ =~= before + cwd_block(Some(dir@)));
            }
        },
        None => {
            proof {
                assert(out@ =~= before + cwd_block(None));
            }
        },
    }
}

/// Writes the LaunchAgent plist of a managed process.
pub fn agent_plist_text(label: &str, spec: &AgentSpec, out_log: &str, err_log: &str) -> (r: String)
    ensures
        r@ == agent_plist(
            label@,
            spec.command@,
            string_views(spec.args@),
            pair_views(spec.env@),
            opt_view(spec.cwd),
            spec.autostart,
            spec.restart_enabled,
            out_log@,
            err_log@,
        ),
{
    let mut out = "<?xml version=\"1.0\" encoding=\"UTF-8\"?>\n<!DOCTYPE plist PUBLIC \"-//Apple//DTD PLIST 1.0//EN\" \"http://www.apple.com/DTDs/PropertyList-1.0.dtd\">\n<plist version=\"1.0\">\n<dict>\n  <key>Label</key><string>".to_string();
    push_escaped(&mut out, label);
    push_str(&mut out, "</string>\n  <key>ProgramArguments</key>\n  <array>\n");
    let ghost a = out@;
    push_str(&mut out, "    <string>");
    push_escaped(&mut out, spec.command.as_str());
    push_str(&mut out, "</string>\n");
    proof {
        assert(out@ =~= a + argument_item(spec.command@));
    }
    push_argument_items(&mut out, &spec.args);
    push_str(&mut out, "  </array>\n  <key>RunAtLoad</key><");
    push_str(&mut out, bool_text(spec.autostart));
    push_str(&mut out, "/>\n  <key>KeepAlive</key><");
    push_str(&mut out, bool_text(spec.restart_enabled));
    push_str(&mut out, "/>\n");
    push_cwd_block(&mut out, &spec.cwd);
    push_env_block(&mut out, &spec.env);
    push_str(&mut out, "  <key>StandardOutPath</key><string>");
    push_escaped(&mut out, out_log);
    push_str(&mut out, "</string>\n  <key>StandardErrorPath</key><string>");
    push_escaped(&mut out, err_log);
    push_str(&mut out, "</string>\n</dict>\n</plist>\n");
    out
}

// ---------------------------------------------------------------------------
// Managed LaunchAgents
// ---------------------------------------------------------------------------

/// Test-only behaviour injected by an integration fixture; production
/// assembly has no path to it.
#[derive(Debug)]
pub struct LaunchdTestControls {
    fail_next_start: std::sync::atomic::AtomicBool,
}

impl LaunchdTestControls {
    pub fn new() -> Self {
        LaunchdTestControls { fail_next_start: std::sync::atomic::AtomicBool::new(false) }
    }

    /// Makes the next `start` fail once.
    pub fn fail_next_start(&self) {
        self.fail_next_start.store(true, std::sync::atomic::Ordering::SeqCst);
    }

    /// Whether a failure was requested; the request is consumed.
    pub fn take_start_failure(&self) -> bool {
        self.fail_next_start.swap(false, std::sync::atomic::Ordering::SeqCst)
    }
}

/// The registrar of managed processes as per-user LaunchAgents.
pub struct LaunchdAgentProcess {
    pub agents_dir: String,
    pub log_dir: String,
    pub uid: u32,
    pub test_controls: Option<std::sync::Arc<LaunchdTestControls>>,
}

/// `~/Library/LaunchAgents` under `home` (`/tmp` when `HOME` is unset).
pub open spec fn agents_dir_of(home: Option<Seq<char>>) -> Seq<char> {
    let home = match home {
        Some(h) => h,
        None => "/tmp"@,
    };
    join_path(join_path(home, "Library"@), "LaunchAgents"@)
}

pub open spec fn uid_text(uid: u32) -> Seq<char> {
    crate::text::decimal(uid as nat)
}

fn uid_string(uid: u32) -> (r: String)
    ensures
        r@ == uid_text(uid),
{
    let digits = crate::text::decimal_u64(uid as u64);
    crate::text::string_of(&digits)
}

/// `gui/<uid>`, the per-user launchd domain.
pub open spec fn domain_of(uid: u32) -> Seq<char> {
    "gui/"@ + uid_text(uid)
}

impl LaunchdAgentProcess {
    /// A registrar writing plists under `home`'s LaunchAgents and pointing
    /// launchd's output at `log_dir`.
    pub fn new(log_dir: String, home: Option<String>, uid: u32) -> (r: Self)
        ensures
            r.agents_dir@ == agents_dir_of(opt_view(home)),
            r.log_dir == log_dir,
            r.uid == uid,
            r.test_controls is None,
    {
        let home_dir = match home {
            Some(h) => h,
            None => "/tmp".to_string(),
        };
        let library = join(home_dir.as_str(), "Library");
        let agents_dir = join(library.as_str(), "LaunchAgents");
        LaunchdAgentProcess { agents_dir, log_dir, uid, test_controls: None }
    }

    /// A registrar whose failure behaviour is controlled by `test_controls`.
    pub fn with_test_controls(
        log_dir: String,
        test_controls: std::sync::Arc<LaunchdTestControls>,
        home: Option<String>,
        uid: u32,
    ) -> (r: Self)
        ensures
            r.agents_dir@ == agents_dir_of(opt_view(home)),
            r.log_dir == log_dir,
            r.uid == uid,
            r.test_controls == Some(test_controls),
    {
        let mut registrar = Self::new(log_dir, home, uid);
        registrar.test_controls = Some(test_controls);
        registrar
    }

    /// `<agents_dir>/<unit>.plist`.
    pub fn plist_path(&self, unit_name: &str) -> (r: String)
        ensures
            r@ == join_path(self.agents_dir@, unit_name@ + ".plist"@),
    {
        let mut file = unit_name.to_string();
        push_str(&mut file, ".plist");
        join(self.agents_dir.as_str(), file.as_str())
    }

    /// `gui/<uid>`.
    pub fn domain(&self) -> (r: String)
        ensures
            r@ == domain_of(self.uid),
    {
        let mut r = "gui/".to_string();
        let uid = uid_string(self.uid);
        push_str(&mut r, uid.as_str());
        r
    }

    /// `gui/<uid>/<unit>`.
    pub fn service_target(&self, unit_name: &str) -> (r: String)
        ensures
            r@ == domain_of(self.uid) + "/"@ + unit_name@,
    {
        let mut r = self.domain();
        push_str(&mut r, "/");
        push_str(&mut r, unit_name);
        r
    }

    /// `<log_dir>/<unit>.out.log`.
    pub fn out_log(&self, unit_name: &str) -> (r: String)
        ensures
            r@ == join_path(self.log_dir@, unit_name@ + ".out.log"@),
    {
        let mut file = unit_name.to_string();
        push_str(&mut file, ".out.log");
        join(self.log_dir.as_str(), file.as_str())
    }

    /// `<log_dir>/<unit>.err.log`.
    pub fn err_log(&self, unit_name: &str) -> (r: String)
        ensures
            r@ == join_path(self.log_dir@, unit_name@ + ".err.log"@),
    {
        let mut file = unit_name.to_string();
        push_str(&mut file, ".err.log");
        join(self.log_dir.as_str(), file.as_str())
    }

    /// The plist of a managed unit: its label, program and arguments, run at
    /// load when autostarted, kept alive when restarts are enabled, and its
    /// output files in the log directory.
    pub fn build_plist(&self, unit_name: &str, spec: &AgentSpec) -> (r: String)
        ensures
            r@ == agent_plist(
                unit_name@,
                spec.command@,
                string_views(spec.args@),
                pair_views(spec.env@),
                opt_view(spec.cwd),
                spec.autostart,
                spec.restart_enabled,
                join_path(self.log_dir@, unit_name@ + ".out.log"@),
                join_path(self.log_dir@, unit_name@ + ".err.log"@),
            ),
    {
        let out = self.out_log(unit_name);
        let err = self.err_log(unit_name);
        agent_plist_text(unit_name, spec, out.as_str(), err.as_str())
    }

    /// Whether an injected start failure is pending (and consumes it).
    pub fn take_injected_start_failure(&self) -> (r: bool)
        ensures
            self.test_controls is None ==> !r,
    {
        match &self.test_controls {
            Some(controls) => controls.take_start_failure(),
            None => false,
        }
    }
}

// ---------------------------------------------------------------------------
// launchd output of managed units
// ---------------------------------------------------------------------------

pub open spec fn div_ceil2(n: nat) -> nat {
    (n + 1) / 2
}

/// How many lines `tail` reads from each of a unit's output files: half of
/// the request (rounded up), or 10 000 when the request is unbounded (0).
pub open spec fn per_stream_limit(lines: usize) -> nat {
    if lines == 0 {
        10000
    } else {
        div_ceil2(lines as nat)
    }
}

pub fn per_stream_lines(lines: usize) -> (r: usize)
    ensures
        r == per_stream_limit(lines),
{
    if lines == 0 {
        10000
    } else {
        lines / 2 + lines % 2
    }
}

pub open spec fn sat_sub(a: nat, b: nat) -> nat {
    if a >= b {
        (a - b) as nat
    } else {
        0
    }
}

/// The lines of a unit's raw output files as one page: the newest
/// `ceil(lines/2)` standard-output lines, then the newest `floor(lines/2)`
/// standard-error lines (all of them for an unbounded request), numbered
/// from 1 in that order and stamped with `timestamp`.
pub open spec fn agent_tail_lines(
    stdout: Seq<Seq<char>>,
    stderr: Seq<Seq<char>>,
    lines: usize,
) -> (Seq<Seq<char>>, Seq<Seq<char>>) {
    let out_start = if lines == 0 {
        0
    } else {
        sat_sub(stdout.len(), div_ceil2(lines as nat))
    };
    let err_start = if lines == 0 {
        0
    } else {
        sat_sub(stderr.len(), (lines / 2) as nat)
    };
    (stdout.skip(out_start as int), stderr.skip(err_start as int))
}

/// Merges the output of `tail` on a unit's two files into numbered lines.
pub fn collect_agent_tail(stdout: &str, stderr: &str, lines: usize, timestamp: i128) -> (r: Vec<
    LogLine,
>)
    requires
        lines_of(stdout@).len() + lines_of(stderr@).len() < usize::MAX,
    ensures
        ({
            let (outs, errs) = agent_tail_lines(
                lines_of(stdout@),
                lines_of(stderr@),
                lines,
            );
            &&& r@.len() == outs.len() + errs.len()
            &&& forall|i: int|
                0 <= i < r@.len() ==> (#[trigger] r@[i]).sequence == i + 1 && r@[i].timestamp
                    == timestamp
            &&& forall|i: int|
                0 <= i < outs.len() ==> (#[trigger] r@[i]).stream == LogStream::Stdout
                    && r@[i].line@ == outs[i]
            &&& forall|i: int|
                0 <= i < errs.len() ==> (#[trigger] r@[outs.len() + i]).stream == LogStream::Stderr
                    && r@[outs.len() + i].line@ == errs[i]
        }),
{
    let out_chars = chars_of(stdout);
    let err_chars = chars_of(stderr);
    let out_lines = split_lines(&out_chars);
    let err_lines = split_lines(&err_chars);
    let half_up: usize = lines / 2 + lines % 2;
    let out_start: usize = if lines == 0 {
        0
    } else {
        out_lines.len().saturating_sub(half_up)
    };
    let err_start: usize = if lines == 0 {
        0
    } else {
        err_lines.len().saturating_sub(lines / 2)
    };
    let ghost outs = lines_of(stdout@).skip(out_start as int);
    let ghost errs = lines_of(stderr@).skip(err_start as int);
    let mut r: Vec<LogLine> = Vec::new();
    let mut i: usize = out_start;
    while i < out_lines.len()
        invariant
            out_start <= i <= out_lines.len(),
            out_lines@.map_values(|l: Vec<char>| l@) == lines_of(stdout@),
            outs == lines_of(stdout@).skip(out_start as int),
            r@.len() == i - out_start,
            forall|k: int|
                0 <= k < r@.len() ==> (#[trigger] r@[k]).sequence == k + 1 && r@[k].timestamp
                    == timestamp && r@[k].stream == LogStream::Stdout && r@[k].line@ == outs[k],
        decreases out_lines.len() - i,
    {
        let text = crate::text::string_of(&out_lines[i]);
        let sequence: u64 = (i - out_start + 1) as u64;
        proof {
            assert(outs[(i - out_start) as int] == out_lines@[i as int]@);
        }
        r.push(LogLine { sequence, timestamp, stream: LogStream::Stdout, line: text });
        i += 1;
    }
    let taken: usize = out_lines.len() - out_start;
    proof {
        assert(out_lines@.map_values(|l: Vec<char>| l@).len() == out_lines@.len());
        assert(err_lines@.map_values(|l: Vec<char>| l@).len() == err_lines@.len());
    }
    let mut j: usize = err_start;
    while j < err_lines.len()
        invariant
            err_start <= j <= err_lines.len(),
            err_lines@.map_values(|l: Vec<char>| l@) == lines_of(stderr@),
            errs == lines_of(stderr@).skip(err_start as int),
            outs.len() == taken,
            taken <= out_lines.len(),
            out_lines.len() + err_lines.len() < usize::MAX,
            r@.len() == taken + (j - err_start),
            forall|k: int|
                0 <= k < r@.len() ==> (#[trigger] r@[k]).sequence == k + 1 && r@[k].timestamp
                    == timestamp,
            forall|k: int|
                0 <= k < taken ==> (#[trigger] r@[k]).stream == LogStream::Stdout && r@[k].line@
                    == outs[k],
            forall|k: int|
                0 <= k < j - err_start ==> (#[trigger] r@[taken + k]).stream == LogStream::Stderr
                    && r@[taken + k].line@ == errs[k],
        decreases err_lines.len() - j,
    {
        let text = crate::text::string_of(&err_lines[j]);
        proof {
            assert(errs[(j - err_start) as int] == err_lines@[j as int]@);
        }
        let sequence: u64 = (taken + (j - err_start) + 1) as u64;
        r.push(LogLine { sequence, timestamp, stream: LogStream::Stderr, line: text });
        j += 1;
    }
    r
}

// ---------------------------------------------------------------------------
// The supervisor's own LaunchAgent
// ---------------------------------------------------------------------------

/// Service state of the supervisor's LaunchAgent.
#[derive(Debug, Clone, Copy, PartialEq, Eq, Structural)]
pub enum SupervisorServiceState {
    NotInstalled,
    Stopped,
    Starting,
    Ready,
    Failed,
}

/// What the supervisor's LaunchAgent reports about itself.
#[derive(Debug)]
pub struct SupervisorServiceStatus {
    pub state: SupervisorServiceState,
    pub label: String,
    pub plist_path: String,
    pub pid: Option<u32>,
}

/// Result of running one `launchctl` command.
#[derive(Debug)]
pub struct CommandOutput {
    pub success: bool,
    pub stdout: String,
    pub stderr: String,
}

/// What the host knows when it assembles the supervisor's LaunchAgent.
#[derive(Debug)]
pub struct AgentHost {
    /// The user's home directory, when it could be resolved.
    pub home: Option<String>,
    /// A test label replacing the production one (debug builds only).
    pub label_override: Option<String>,
    /// A test plist path replacing the production one (debug builds only).
    pub plist_path_override: Option<String>,
    /// Whether the daemon binary is a regular file.
    pub binary_is_file: bool,
    /// The current user id.
    pub uid: u32,
}

/// The supervisor's own LaunchAgent: one daemon per user, distinct from the
/// managed-process registrar.
#[derive(Debug)]
pub struct SupervisorLaunchAgent {
    pub root: String,
    pub plist_path: String,
    pub binary: String,
    pub uid: u32,
    pub label: String,
}

pub open spec fn supervisor_plist_path(home: Seq<char>) -> Seq<char> {
    join_path(join_path(join_path(home, "Library"@), "LaunchAgents"@), "com.my-supervisor.daemon"@ + ".plist"@)
}

pub open spec fn status_for(
    state: SupervisorServiceState,
    label: String,
    plist_path: String,
    pid: Option<u32>,
) -> SupervisorServiceStatus {
    SupervisorServiceStatus { state, label, plist_path, pid }
}

/// What `launchctl print` for the agent tells about it.
pub open spec fn status_from_print(
    agent: SupervisorLaunchAgent,
    print: Result<CommandOutput, String>,
) -> Result<SupervisorServiceStatus, String> {
    match print {
        Ok(output) => if output.success {
            let pid = launchctl_pid_spec(output.stdout@);
            Ok(
                status_for(
                    if pid is Some {
                        SupervisorServiceState::Ready
                    } else {
                        SupervisorServiceState::Stopped
                    },
                    agent.label,
                    agent.plist_path,
                    match pid {
                        Some(p) => Some(p as u32),
                        None => None,
                    },
                ),
            )
        } else {
            Ok(
                status_for(
                    SupervisorServiceState::Stopped,
                    agent.label,
                    agent.plist_path,
                    None,
                ),
            )
        },
        Err(e) => Err(e),
    }
}

impl SupervisorLaunchAgent {
    /// The agent for the daemon at `binary`, keeping its data under `root`.
    /// Refused when the home directory is unknown or the binary is missing.
    pub fn new(root: String, binary: String, host: AgentHost) -> (r: Result<Self, String>)
        ensures
            host.home is None ==> (r matches Err(m) && m@
                == "resolving the current user's home directory"@),
            host.home is Some && !host.binary_is_file ==> (r matches Err(m) && m@
                == "daemon binary is unavailable at "@ + binary@),
            r matches Ok(agent) ==> {
                &&& host.home is Some && host.binary_is_file
                &&& agent.root == root
                &&& agent.binary == binary
                &&& agent.uid == host.uid
                &&& agent.label@ == (match host.label_override {
                    Some(l) => l@,
                    None => "com.my-supervisor.daemon"@,
                })
                &&& agent.plist_path@ == (match host.plist_path_override {
                    Some(p) => p@,
                    None => supervisor_plist_path(opt_view(host.home)->0),
                })
            },
            host.home is Some && host.binary_is_file ==> r is Ok,
    {
        let home = match host.home {
            Some(h) => h,
            None => {
                return Err("resolving the current user's home directory".to_string());
            },
        };
        let library = join(home.as_str(), "Library");
        let agents = join(library.as_str(), "LaunchAgents");
        let mut file = SUPERVISOR_LABEL.to_string();
        push_str(&mut file, ".plist");
        let default_path = join(agents.as_str(), file.as_str());
        let label = match host.label_override {
            Some(l) => l,
            None => SUPERVISOR_LABEL.to_string(),
        };
        let plist_path = match host.plist_path_override {
            Some(p) => p,
            None => default_path,
        };
        if !host.binary_is_file {
            let mut message = "daemon binary is unavailable at ".to_string();
            push_str(&mut message, binary.as_str());
            return Err(message);
        }
        Ok(SupervisorLaunchAgent { root, plist_path, binary, uid: host.uid, label })
    }

    /// `gui/<uid>`.
    pub fn domain(&self) -> (r: String)
        ensures
            r@ == domain_of(self.uid),
    {
        let mut r = "gui/".to_string();
        let uid = uid_string(self.uid);
        push_str(&mut r, uid.as_str());
        r
    }

    /// `gui/<uid>/<label>`.
    pub fn target(&self) -> (r: String)
        ensures
            r@ == domain_of(self.uid) + "/"@ + self.label@,
    {
        let mut r = self.domain();
        push_str(&mut r, "/");
        push_str(&mut r, self.label.as_str());
        r
    }

    /// `<root>/run/intentional-stop`: while this file exists launchd keeps
    /// the agent down.
    pub fn intentional_stop_path(&self) -> (r: String)
        ensures
            r@ == join_path(join_path(self.root@, "run"@), "intentional-stop"@),
    {
        let run = join(self.root.as_str(), "run");
        join(run.as_str(), "intentional-stop")
    }

    /// `<root>/logs/<file>`.
    fn log_file(&self, file: &str) -> (r: String)
        ensures
            r@ == join_path(join_path(self.root@, "logs"@), file@),
    {
        let logs = join(self.root.as_str(), "logs");
        join(logs.as_str(), file)
    }

    /// The `EnvironmentVariables` entry for the debug variables that are set
    /// (empty when none is).
    pub fn debug_environment(values: &Vec<(String, Option<String>)>) -> (r: String)
        ensures
            r@ == debug_environment_text(debug_pairs(values@)),
    {
        let mut body = String::new();
        let ghost mut pairs: Seq<(Seq<char>, Seq<char>)> = Seq::empty();
        let mut i: usize = 0;
        while i < values.len()
            invariant
                i <= values@.len(),
                pairs == debug_pairs(values@.take(i as int)),
                body@ == debug_items(pairs),
            decreases values.len() - i,
        {
            proof {
                assert(values@.take(i + 1).drop_last() =~= values@.take(i as int));
                assert(values@.take(i + 1).last() == values@[i as int]);
            }
            match &values[i].1 {
                Some(value) => {
                    let ghost prev = body@;
                    push_str(&mut body, "<key>");
                    push_escaped(&mut body, values[i].0.as_str());
                    push_str(&mut body, "</key><string>");
                    push_escaped(&mut body, value.as_str());
                    push_str(&mut body, "</string>");
                    proof {
                        let p = (values@[i as int].0@, value@);
                        assert(body@ =~= prev + debug_item(p));
                        pairs = pairs.push(p);
                        assert(pairs.drop_last() =~= debug_pairs(values@.take(i as int)));
                    }
                },
                None => {},
            }
            i += 1;
        }
        proof {
            assert(values@.take(values@.len() as int) =~= values@);
            lemma_debug_items_empty(pairs);
        }
        if body.as_str().is_empty() {
            String::new()
        } else {
            let mut r = "<key>EnvironmentVariables</key><dict>".to_string();
            push_str(&mut r, body.as_str());
            push_str(&mut r, "</dict>");
            r
        }
    }

    /// The agent's plist: run the daemon at load, keep it alive unless the
    /// intentional-stop file exists, throttle restarts to 5 seconds, and
    /// write its output under `<root>/logs`.
    pub fn plist(&self, debug_environment: &str) -> (r: String)
        ensures
            r@ == supervisor_plist(
                self.label@,
                self.binary@,
                debug_environment@,
                join_path(join_path(self.root@, "run"@), "intentional-stop"@),
                join_path(join_path(self.root@, "logs"@), "daemon.out.log"@),
                join_path(join_path(self.root@, "logs"@), "daemon.err.log"@),
            ),
    {
        let marker = self.intentional_stop_path();
        let out = self.log_file("daemon.out.log");
        let err = self.log_file("daemon.err.log");
        let mut r = "<?xml version=\"1.0\" encoding=\"UTF-8\"?>\n<!DOCTYPE plist PUBLIC \"-//Apple//DTD PLIST 1.0//EN\" \"http://www.apple.com/DTDs/PropertyList-1.0.dtd\">\n<plist version=\"1.0\"><dict>\n<key>Label</key><string>".to_string();
        push_escaped(&mut r, self.label.as_str());
        push_str(&mut r, "</string>\n<key>ProgramArguments</key><array><string>");
        push_escaped(&mut r, self.binary.as_str());
        push_str(&mut r, "</string></array>\n");
        push_str(&mut r, debug_environment);
        push_str(
            &mut r,
            "\n<key>RunAtLoad</key><true/>\n<key>KeepAlive</key><dict><key>PathState</key><dict><key>",
        );
        push_escaped(&mut r, marker.as_str());
        push_str(
            &mut r,
            "</key><false/></dict></dict>\n<key>ThrottleInterval</key><integer>5</integer>\n<key>StandardOutPath</key><string>",
        );
        push_escaped(&mut r, out.as_str());
        push_str(&mut r, "</string>\n<key>StandardErrorPath</key><string>");
        push_escaped(&mut r, err.as_str());
        push_str(&mut r, "</string>\n</dict></plist>");
        r
    }

    /// The status reported when the agent's plist is not installed.
    pub fn not_installed(&self) -> (r: SupervisorServiceStatus)
        ensures
            r == status_for(
                SupervisorServiceState::NotInstalled,
                self.label,
                self.plist_path,
                None,
            ),
    {
        SupervisorServiceStatus {
            state: SupervisorServiceState::NotInstalled,
            label: self.label.clone(),
            plist_path: self.plist_path.clone(),
            pid: None,
        }
    }

    /// The status that `launchctl print <target>` implies: ready with the
    /// reported PID, stopped when there is none or the agent is not loaded,
    /// and the error of a `launchctl` that could not run.
    pub fn status_from(&self, print: Result<CommandOutput, String>) -> (r: Result<
        SupervisorServiceStatus,
        String,
    >)
        ensures
            r == status_from_print(*self, print),
    {
        match print {
            Ok(output) => {
                if output.success {
                    let pid = parse_launchctl_pid(output.stdout.as_str());
                    Ok(
                        SupervisorServiceStatus {
                            state: if pid.is_some() {
                                SupervisorServiceState::Ready
                            } else {
                                SupervisorServiceState::Stopped
                            },
                            label: self.label.clone(),
                            plist_path: self.plist_path.clone(),
                            pid,
                        },
                    )
                } else {
                    Ok(
                        SupervisorServiceStatus {
                            state: SupervisorServiceState::Stopped,
                            label: self.label.clone(),
                            plist_path: self.plist_path.clone(),
                            pid: None,
                        },
                    )
                }
            },
            Err(e) => Err(e),
        }
    }

    /// Begins a status query: without a plist the agent is not installed and
    /// nothing is run; otherwise `launchctl print <target>` is run next.
    pub fn status(&self, plist_is_file: bool) -> (r: (AgentPhase, AgentAction))
        ensures
            !plist_is_file ==> r.0 == AgentPhase::Done && r.1 == AgentAction::Finish(
                Ok(status_for(SupervisorServiceState::NotInstalled, self.label, self.plist_path, None)),
            ),
            plist_is_file ==> r.0 == AgentPhase::Printing && (r.1 matches AgentAction::Print(t) && t@
                == domain_of(self.uid) + "/"@ + self.label@),
    {
        if !plist_is_file {
            return (AgentPhase::Done, AgentAction::Finish(Ok(self.not_installed())));
        }
        (AgentPhase::Printing, AgentAction::Print(self.target()))
    }

    /// Begins stopping the agent and keeping it down: without a plist only
    /// the status is reported and nothing is run; otherwise the directory of
    /// the intentional-stop file is made private first.
    pub fn stop(&self, plist_is_file: bool) -> (r: (AgentPhase, AgentAction))
        ensures
            !plist_is_file ==> r.0 == AgentPhase::Done && r.1 == AgentAction::Finish(
                Ok(status_for(SupervisorServiceState::NotInstalled, self.label, self.plist_path, None)),
            ),
            plist_is_file ==> r.0 == AgentPhase::Preparing && (r.1 matches AgentAction::PrepareDirectory(
                p,
            ) && p@ == join_path(join_path(self.root@, "run"@), "intentional-stop"@)),
    {
        if !plist_is_file {
            return (AgentPhase::Done, AgentAction::Finish(Ok(self.not_installed())));
        }
        (AgentPhase::Preparing, AgentAction::PrepareDirectory(self.intentional_stop_path()))
    }

    /// The next step of a stop or status query once the host reports what
    /// the last action did: the marker (exactly `intentional-stop` and a
    /// newline, user-only) is written only into a prepared directory,
    /// `launchctl bootout <target>` runs only after it was written (its
    /// outcome does not matter), and the query ends with what `launchctl
    /// print <target>` says.  A failure to prepare or write ends the stop
    /// with its error before anything is booted out.
    pub fn advance(&self, phase: AgentPhase, event: AgentEvent) -> (r: (AgentPhase, AgentAction))
        requires
            agent_accepts(phase, event),
        ensures
            phase == AgentPhase::Preparing ==> match event {
                AgentEvent::Prepared(Err(e)) => r.0 == AgentPhase::Done && (r.1 matches AgentAction::Finish(
                    Err(m),
                ) && m@ == "preparing intentional-stop directory: "@ + e@),
                _ => r.0 == AgentPhase::Writing && (r.1 matches AgentAction::WriteMarker(p, c) && p@
                    == join_path(join_path(self.root@, "run"@), "intentional-stop"@) && c@
                    == stop_marker_contents()),
            },
            phase == AgentPhase::Writing ==> match event {
                AgentEvent::Written(Err(e)) => r.0 == AgentPhase::Done && (r.1 matches AgentAction::Finish(
                    Err(m),
                ) && m@ == "writing intentional-stop marker: "@ + e@),
                _ => r.0 == AgentPhase::BootingOut && (r.1 matches AgentAction::Bootout(t) && t@
                    == domain_of(self.uid) + "/"@ + self.label@),
            },
            phase == AgentPhase::BootingOut ==> r.0 == AgentPhase::Printing && (r.1 matches AgentAction::Print(
                t,
            ) && t@ == domain_of(self.uid) + "/"@ + self.label@),
            phase == AgentPhase::Printing ==> r.0 == AgentPhase::Done && (event matches AgentEvent::Printed(
                out,
            ) && r.1 == AgentAction::Finish(status_from_print(*self, out))),
    {
        match event {
            AgentEvent::Prepared(Err(e)) => {
                let mut m = "preparing intentional-stop directory: ".to_string();
                push_str(&mut m, e.as_str());
                (AgentPhase::Done, AgentAction::Finish(Err(m)))
            },
            AgentEvent::Prepared(Ok(())) => {
                (
                    AgentPhase::Writing,
                    AgentAction::WriteMarker(self.intentional_stop_path(), "intentional-stop\n".to_string()),
                )
            },
            AgentEvent::Written(Err(e)) => {
                let mut m = "writing intentional-stop marker: ".to_string();
                push_str(&mut m, e.as_str());
                (AgentPhase::Done, AgentAction::Finish(Err(m)))
            },
            AgentEvent::Written(Ok(())) => (AgentPhase::BootingOut, AgentAction::Bootout(self.target())),
            AgentEvent::BootedOut => (AgentPhase::Printing, AgentAction::Print(self.target())),
            AgentEvent::Printed(out) => (AgentPhase::Done, AgentAction::Finish(self.status_from(out))),
        }
    }
}

/// What the intentional-stop file holds.
pub open spec fn stop_marker_contents() -> Seq<char> {
    "intentional-stop\n"@
}

/// Where a stop or status query of the supervisor's agent stands.
#[derive(Debug, Clone, Copy, PartialEq, Eq, Structural)]
pub enum AgentPhase {
    /// Waiting for the marker's directory to be made private.
    Preparing,
    /// Waiting for the marker to be written.
    Writing,
    /// Waiting for `launchctl bootout` to have run.
    BootingOut,
    /// Waiting for `launchctl print`.
    Printing,
    /// Finished.
    Done,
}

/// What the host reports of the last action.
#[derive(Debug)]
pub enum AgentEvent {
    Prepared(Result<(), String>),
    Written(Result<(), String>),
    BootedOut,
    Printed(Result<CommandOutput, String>),
}

/// What the host does next.
#[derive(Debug)]
pub enum AgentAction {
    /// The query is over with this result.
    Finish(Result<SupervisorServiceStatus, String>),
    /// Make the directory holding this path private.
    PrepareDirectory(String),
    /// Write these contents to this path, user-only, atomically.
    WriteMarker(String, String),
    /// Run `launchctl bootout` on this target, ignoring its outcome.
    Bootout(String),
    /// Run `launchctl print` on this target and report its output.
    Print(String),
}

/// The events each phase waits for.
pub open spec fn agent_accepts(phase: AgentPhase, event: AgentEvent) -> bool {
    match phase {
        AgentPhase::Preparing => event is Prepared,
        AgentPhase::Writing => event is Written,
        AgentPhase::BootingOut => event is BootedOut,
        AgentPhase::Printing => event is Printed,
        AgentPhase::Done => false,
    }
}

pub open spec fn debug_item(p: (Seq<char>, Seq<char>)) -> Seq<char> {
    "<key>"@ + xml_escape(p.0) + "</key><string>"@ + xml_escape(p.1) + "</string>"@
}

pub open spec fn debug_items(pairs: Seq<(Seq<char>, Seq<char>)>) -> Seq<char>
    decreases pairs.len(),
{
    if pairs.len() == 0 {
        Seq::empty()
    } else {
        debug_items(pairs.drop_last()) + debug_item(pairs.last())
    }
}

/// The debug variables that are set, in order.
pub open spec fn debug_pairs(values: Seq<(String, Option<String>)>) -> Seq<(Seq<char>, Seq<char>)>
    decreases values.len(),
{
    if values.len() == 0 {
        Seq::empty()
    } else {
        let prev = debug_pairs(values.drop_last());
        match values.last().1 {
            Some(v) => prev.push((values.last().0@, v@)),
            None => prev,
        }
    }
}

pub open spec fn debug_environment_text(pairs: Seq<(Seq<char>, Seq<char>)>) -> Seq<char> {
    if pairs.len() == 0 {
        Seq::empty()
    } else {
        "<key>EnvironmentVariables</key><dict>"@ + debug_items(pairs) + "</dict>"@
    }
}

proof fn lemma_debug_items_empty(pairs: Seq<(Seq<char>, Seq<char>)>)
    ensures
        (debug_items(pairs).len() == 0) == (pairs.len() == 0),
    decreases pairs.len(),
{
    if pairs.len() > 0 {
        reveal_strlit("<key>");
        assert(debug_item(pairs.last()).len() > 0);
    }
}

/// The supervisor agent's plist.
pub open spec fn supervisor_plist(
    label: Seq<char>,
    binary: Seq<char>,
    debug_environment: Seq<char>,
    marker: Seq<char>,
    out_log: Seq<char>,
    err_log: Seq<char>,
) -> Seq<char> {
    "<?xml version=\"1.0\" encoding=\"UTF-8\"?>\n<!DOCTYPE plist PUBLIC \"-//Apple//DTD PLIST 1.0//EN\" \"http://www.apple.com/DTDs/PropertyList-1.0.dtd\">\n<plist version=\"1.0\"><dict>\n<key>Label</key><string>"@ + xml_escape(label)
        + "</string>\n<key>ProgramArguments</key><array><string>"@ + xml_escape(binary)
        + "</string></array>\n"@ + debug_environment
        + "\n<key>RunAtLoad</key><true/>\n<key>KeepAlive</key><dict><key>PathState</key><dict><key>"@
        + xml_escape(marker)
        + "</key><false/></dict></dict>\n<key>ThrottleInterval</key><integer>5</integer>\n<key>StandardOutPath</key><string>"@
        + xml_escape(out_log) + "</string>\n<key>StandardErrorPath</key><string>"@ + xml_escape(
        err_log,
    ) + "</string>\n</dict></plist>"@
}

/// The error of a `launchctl` run that did not succeed: `launchctl <args>
/// failed: <stderr, trimmed>`; the error of a run that could not start is
/// passed on.
pub fn launchctl_success(args: &str, output: Result<CommandOutput, String>) -> (r: Result<(), String>)
    ensures
        match output {
            Err(e) => r == Err::<(), String>(e),
            Ok(o) => if o.success {
                r is Ok
            } else {
                (r matches Err(m) && m@ == "launchctl "@ + args@ + " failed: "@ + trim(o.stderr@))
            },
        },
{
    match output {
        Err(e) => Err(e),
        Ok(o) => {
            if o.success {
                Ok(())
            } else {
                let mut m = "launchctl ".to_string();
                push_str(&mut m, args);
                push_str(&mut m, " failed: ");
                let stderr = chars_of(o.stderr.as_str());
                let trimmed = crate::text::string_of(&trim_chars(&stderr));
                push_str(&mut m, trimmed.as_str());
                Err(m)
            }
        },
    }
}


/// Where starting a managed unit stands.
#[derive(Debug, Clone, Copy, PartialEq, Eq, Structural)]
pub enum UnitStartPhase {
    /// Waiting for `launchctl bootout` of the live unit to have run.
    BootingOut,
    /// Waiting to learn whether the unit's plist exists.
    CheckingPlist,
    /// Waiting for `launchctl bootstrap`.
    Bootstrapping,
    Done,
}

/// What the host reports of the last start action.
#[derive(Debug)]
pub enum UnitStartEvent {
    BootedOut,
    PlistChecked(bool),
    Bootstrapped(Result<CommandOutput, String>),
}

/// What the host does next to start a managed unit.
#[derive(Debug)]
pub enum UnitStartAction {
    /// The start is over with this result.
    Finish(Result<(), String>),
    /// Run `launchctl bootout` on this target, ignoring its outcome.
    Bootout(String),
    /// Report whether this plist exists.
    CheckPlist(String),
    /// Run `launchctl bootstrap <domain> <plist>`.
    Bootstrap(String, String),
}

/// The events each start phase waits for.
pub open spec fn unit_start_accepts(phase: UnitStartPhase, event: UnitStartEvent) -> bool {
    match phase {
        UnitStartPhase::BootingOut => event is BootedOut,
        UnitStartPhase::CheckingPlist => event is PlistChecked,
        UnitStartPhase::Bootstrapping => event is Bootstrapped,
        UnitStartPhase::Done => false,
    }
}

/// The result of `launchctl bootstrap`: success, `launchctl bootstrap
/// failed: <stderr, trimmed>`, or the error of a run that could not start.
pub open spec fn bootstrap_result(output: Result<CommandOutput, String>) -> Result<(), Seq<char>> {
    match output {
        Err(e) => Err(e@),
        Ok(o) => if o.success {
            Ok(())
        } else {
            Err("launchctl bootstrap failed: "@ + trim(o.stderr@))
        },
    }
}

impl LaunchdAgentProcess {
    /// Begins starting a unit.  `injected` is whether a test control had
    /// armed a start failure (taken, and so disarmed, just before): then the
    /// start fails at once with the injected registration error and no
    /// `launchctl` runs; otherwise the live unit is booted out first.
    pub fn start_unit(&self, unit_name: &str, injected: bool) -> (r: (UnitStartPhase, UnitStartAction))
        ensures
            injected ==> r.0 == UnitStartPhase::Done && (r.1 matches UnitStartAction::Finish(Err(m)) && m@
                == "injected launchd start failure"@),
            !injected ==> r.0 == UnitStartPhase::BootingOut && (r.1 matches UnitStartAction::Bootout(t) && t@
                == domain_of(self.uid) + "/"@ + unit_name@),
    {
        if injected {
            return (UnitStartPhase::Done, UnitStartAction::Finish(Err("injected launchd start failure".to_string())));
        }
        (UnitStartPhase::BootingOut, UnitStartAction::Bootout(self.service_target(unit_name)))
    }

    /// The next step of a start: after the bootout, a missing plist ends
    /// the start with `unit not found: <unit>`; an existing one is
    /// bootstrapped into the user's domain, and the start ends with
    /// `bootstrap_result`.
    pub fn advance_start(&self, unit_name: &str, phase: UnitStartPhase, event: UnitStartEvent) -> (r: (
        UnitStartPhase,
        UnitStartAction,
    ))
        requires
            unit_start_accepts(phase, event),
        ensures
            phase == UnitStartPhase::BootingOut ==> r.0 == UnitStartPhase::CheckingPlist && (r.1 matches UnitStartAction::CheckPlist(
                p,
            ) && p@ == join_path(self.agents_dir@, unit_name@ + ".plist"@)),
            event == UnitStartEvent::PlistChecked(false) ==> r.0 == UnitStartPhase::Done && (r.1 matches UnitStartAction::Finish(
                Err(m),
            ) && m@ == "unit not found: "@ + unit_name@),
            event == UnitStartEvent::PlistChecked(true) ==> r.0 == UnitStartPhase::Bootstrapping && (r.1 matches UnitStartAction::Bootstrap(
                d,
                p,
            ) && d@ == domain_of(self.uid) && p@ == join_path(self.agents_dir@, unit_name@ + ".plist"@)),
            event matches UnitStartEvent::Bootstrapped(out) ==> r.0 == UnitStartPhase::Done && (r.1 matches UnitStartAction::Finish(
                res,
            ) && match res {
                Ok(()) => bootstrap_result(out) == Ok::<(), Seq<char>>(()),
                Err(m) => bootstrap_result(out) == Err::<(), Seq<char>>(m@),
            }),
    {
        match event {
            UnitStartEvent::BootedOut => (UnitStartPhase::CheckingPlist, UnitStartAction::CheckPlist(self.plist_path(unit_name))),
            UnitStartEvent::PlistChecked(false) => {
                let mut m = "unit not found: ".to_string();
                push_str(&mut m, unit_name);
                (UnitStartPhase::Done, UnitStartAction::Finish(Err(m)))
            },
            UnitStartEvent::PlistChecked(true) => (
                UnitStartPhase::Bootstrapping,
                UnitStartAction::Bootstrap(self.domain(), self.plist_path(unit_name)),
            ),
            UnitStartEvent::Bootstrapped(out) => {
                let res = match out {
                    Err(e) => Err(e),
                    Ok(o) => {
                        if o.success {
                            Ok(())
                        } else {
                            let mut m = "launchctl bootstrap failed: ".to_string();
                            let stderr = chars_of(o.stderr.as_str());
                            let trimmed = crate::text::string_of(&trim_chars(&stderr));
                            push_str(&mut m, trimmed.as_str());
                            Err(m)
                        }
                    },
                };
                (UnitStartPhase::Done, UnitStartAction::Finish(res))
            },
        }
    }
}


proof fn lemma_env_items_concat(a: Seq<(Seq<char>, Seq<char>)>, b: Seq<(Seq<char>, Seq<char>)>)
    ensures
        env_items(a + b) == env_items(a) + env_items(b),
    decreases b.len(),
{
    if b.len() == 0 {
        assert(a + b =~= a);
        assert(env_items(a) + env_items(b) =~= env_items(a));
    } else {
        lemma_env_items_concat(a, b.drop_last());
        assert((a + b).drop_last() =~= a + b.drop_last());
        assert((a + b).last() == b.last());
        assert(env_items(a) + env_items(b) =~= env_items(a) + env_items(b.drop_last()) + env_item(b.last()));
    }
}

/// The plist of a process with an environment ends with an
/// `EnvironmentVariables` dict followed by its output paths; the dict holds,
/// in order, one entry per variable: its key and value, XML-escaped.
pub proof fn lemma_plist_carries_environment(
    label: Seq<char>,
    command: Seq<char>,
    args: Seq<Seq<char>>,
    env: Seq<(Seq<char>, Seq<char>)>,
    cwd: Option<Seq<char>>,
    autostart: bool,
    keep_alive: bool,
    out_log: Seq<char>,
    err_log: Seq<char>,
)
    requires
        env.len() > 0,
    ensures
        exists|pre: Seq<char>|
            agent_plist(label, command, args, env, cwd, autostart, keep_alive, out_log, err_log) == pre
                + "  <key>EnvironmentVariables</key>\n  <dict>\n"@ + env_items(env) + "  </dict>\n"@
                + "  <key>StandardOutPath</key><string>"@ + xml_escape(out_log)
                + "</string>\n  <key>StandardErrorPath</key><string>"@ + xml_escape(err_log)
                + "</string>\n</dict>\n</plist>\n"@,
        forall|i: int|
            0 <= i < env.len() ==> env_items(env) == env_items(env.take(i)) + ("    <key>"@ + xml_escape(
                #[trigger] env[i].0,
            ) + "</key><string>"@ + xml_escape(env[i].1) + "</string>\n"@) + env_items(env.skip(i + 1)),
{
    let pre = agent_head() + xml_escape(label) + "</string>\n  <key>ProgramArguments</key>\n  <array>\n"@
        + argument_item(command) + argument_items(args) + "  </array>\n  <key>RunAtLoad</key><"@
        + bool_word(autostart) + "/>\n  <key>KeepAlive</key><"@ + bool_word(keep_alive) + "/>\n"@
        + cwd_block(cwd);
    let tail = "  <key>StandardOutPath</key><string>"@ + xml_escape(out_log)
        + "</string>\n  <key>StandardErrorPath</key><string>"@ + xml_escape(err_log)
        + "</string>\n</dict>\n</plist>\n"@;
    assert(agent_plist(label, command, args, env, cwd, autostart, keep_alive, out_log, err_log) =~= pre
        + "  <key>EnvironmentVariables</key>\n  <dict>\n"@ + env_items(env) + "  </dict>\n"@
        + "  <key>StandardOutPath</key><string>"@ + xml_escape(out_log)
        + "</string>\n  <key>StandardErrorPath</key><string>"@ + xml_escape(err_log)
        + "</string>\n</dict>\n</plist>\n"@);
    assert forall|i: int|
        0 <= i < env.len() implies env_items(env) == env_items(env.take(i)) + ("    <key>"@ + xml_escape(
            #[trigger] env[i].0,
        ) + "</key><string>"@ + xml_escape(env[i].1) + "</string>\n"@) + env_items(env.skip(i + 1)) by {
        let one = seq![env[i]];
        assert(env =~= env.take(i) + one + env.skip(i + 1));
        lemma_env_items_concat(env.take(i) + one, env.skip(i + 1));
        lemma_env_items_concat(env.take(i), one);
        assert(one.drop_last() =~= Seq::<(Seq<char>, Seq<char>)>::empty());
        assert(env_items(one) == env_items(one.drop_last()) + env_item(one.last()));
        assert(env_items(one) =~= env_item(env[i]));
    }
}

/// A bounded tail of a unit's output holds the newest `ceil(lines/2)`
/// standard-output lines and the newest `floor(lines/2)` standard-error
/// lines (fewer only when a file has fewer), so never more than `lines`; an
/// unbounded one holds both files whole.
pub proof fn lemma_agent_tail_newest_halves(stdout: Seq<Seq<char>>, stderr: Seq<Seq<char>>, lines: usize)
    ensures
        ({
            let (outs, errs) = agent_tail_lines(stdout, stderr, lines);
            &&& lines == 0 ==> outs == stdout && errs == stderr
            &&& lines > 0 ==> {
                &&& outs.len() == (if stdout.len() < (lines as int + 1) / 2 {
                    stdout.len() as int
                } else {
                    (lines as int + 1) / 2
                })
                &&& errs.len() == (if stderr.len() < lines as int / 2 {
                    stderr.len() as int
                } else {
                    lines as int / 2
                })
                &&& outs == stdout.subrange(stdout.len() - outs.len(), stdout.len() as int)
                &&& errs == stderr.subrange(stderr.len() - errs.len(), stderr.len() as int)
                &&& outs.len() + errs.len() <= lines
            }
        }),
{
    let (outs, errs) = agent_tail_lines(stdout, stderr, lines);
    if lines == 0 {
        assert(stdout.skip(0) =~= stdout);
        assert(stderr.skip(0) =~= stderr);
    } else {
        assert(outs =~= stdout.subrange(stdout.len() - outs.len(), stdout.len() as int));
        assert(errs =~= stderr.subrange(stderr.len() - errs.len(), stderr.len() as int));
    }
}

} // verus!
