//! Detached-process helpers: where the log proxy and the group reaper live,
//! the debug-only fault controls handed to them, and their command lines.
//! The spawner writes each command line and the helper reads it back; the
//! two agree exactly.

use vstd::prelude::*;

use crate::text::{
    all_digits, chars_of, decimal, decimal_u64, digits_value, lemma_decimal, lemma_parse_zero_padded,
    parse_unsigned, parse_unsigned_chars, push_str, str_eq, string_of, zero_pad,
};

verus! {

/// Debug-only fault controls for detached-helper tests, supplied by the
/// test host and never read from the target's environment.
#[derive(Debug, Clone, Copy, PartialEq, Eq, Structural)]
pub struct DetachedTestControls {
    pub proxy_fail_after_appends: Option<usize>,
    pub reaper_withhold_takeover_ack: bool,
    pub first_reaper_crash_after_start: bool,
}

impl Default for DetachedTestControls {
    fn default() -> (r: Self)
        ensures
            r.proxy_fail_after_appends is None,
            !r.reaper_withhold_takeover_ack,
            !r.first_reaper_crash_after_start,
    {
        DetachedTestControls {
            proxy_fail_after_appends: None,
            reaper_withhold_takeover_ack: false,
            first_reaper_crash_after_start: false,
        }
    }
}

/// What the host found at a helper's configured path.
#[derive(Debug, PartialEq, Eq)]
pub struct HelperProbe {
    /// The path as configured.
    pub path: String,
    /// Its canonical absolute form, or why it could not be resolved.
    pub canonical: Result<String, String>,
    /// Whether the resolved path is a regular file and its permission bits,
    /// or why its metadata could not be read.
    pub metadata: Result<(bool, u32), String>,
}

pub open spec fn helper_check(name: Seq<char>, probe: HelperProbe) -> Result<Seq<char>, Seq<char>> {
    match probe.canonical {
        Err(e) => Err(name + " is unavailable at "@ + probe.path@ + ": "@ + e@),
        Ok(absolute) => match probe.metadata {
            Err(e) => Err("reading "@ + name + " at "@ + absolute@ + " failed: "@ + e@),
            Ok((is_file, mode)) => if !is_file {
                Err(name + " at "@ + absolute@ + " is not a regular file"@)
            } else if mode & 0o111 == 0 {
                Err(name + " at "@ + absolute@ + " is not executable"@)
            } else {
                Ok(absolute@)
            },
        },
    }
}

/// Checks one helper: it must resolve, be a regular file and be executable
/// by someone; the resolved absolute path is kept.
pub fn validate_helper_path(name: &str, probe: &HelperProbe) -> (r: Result<String, String>)
    ensures
        match r {
            Ok(p) => helper_check(name@, *probe) == Ok::<Seq<char>, Seq<char>>(p@),
            Err(e) => helper_check(name@, *probe) == Err::<Seq<char>, Seq<char>>(e@),
        },
{
    let absolute = match &probe.canonical {
        Err(e) => {
            let mut m = name.to_string();
            push_str(&mut m, " is unavailable at ");
            push_str(&mut m, probe.path.as_str());
            push_str(&mut m, ": ");
            push_str(&mut m, e.as_str());
            return Err(m);
        },
        Ok(a) => a,
    };
    match &probe.metadata {
        Err(e) => {
            let mut m = "reading ".to_string();
            push_str(&mut m, name);
            push_str(&mut m, " at ");
            push_str(&mut m, absolute.as_str());
            push_str(&mut m, " failed: ");
            push_str(&mut m, e.as_str());
            Err(m)
        },
        Ok((is_file, mode)) => {
            if !*is_file {
                let mut m = name.to_string();
                push_str(&mut m, " at ");
                push_str(&mut m, absolute.as_str());
                push_str(&mut m, " is not a regular file");
                Err(m)
            } else if *mode & 0o111 == 0 {
                let mut m = name.to_string();
                push_str(&mut m, " at ");
                push_str(&mut m, absolute.as_str());
                push_str(&mut m, " is not executable");
                Err(m)
            } else {
                Ok(absolute.clone())
            }
        },
    }
}

/// Absolute paths of the two detached helpers, chosen by the host; the
/// target's environment is never consulted to find them.
#[derive(Debug, Clone, PartialEq, Eq)]
pub struct DetachedHelperPaths {
    pub log_proxy: String,
    pub group_reaper: String,
}

impl DetachedHelperPaths {
    /// Validates both helpers (`msv-log-proxy` first).
    pub fn new(log_proxy: &HelperProbe, group_reaper: &HelperProbe) -> (r: Result<Self, String>)
        ensures
            match r {
                Ok(paths) => helper_check("msv-log-proxy"@, *log_proxy) == Ok::<Seq<char>, Seq<char>>(
                    paths.log_proxy@,
                ) && helper_check("msv-group-reaper"@, *group_reaper) == Ok::<Seq<char>, Seq<char>>(
                    paths.group_reaper@,
                ),
                Err(e) => helper_check("msv-log-proxy"@, *log_proxy) == Err::<Seq<char>, Seq<char>>(e@)
                    || (helper_check("msv-log-proxy"@, *log_proxy) is Ok && helper_check(
                    "msv-group-reaper"@,
                    *group_reaper,
                ) == Err::<Seq<char>, Seq<char>>(e@)),
            },
    {
        let log_proxy = match validate_helper_path("msv-log-proxy", log_proxy) {
            Ok(p) => p,
            Err(e) => {
                return Err(e);
            },
        };
        let group_reaper = match validate_helper_path("msv-group-reaper", group_reaper) {
            Ok(p) => p,
            Err(e) => {
                return Err(e);
            },
        };
        Ok(DetachedHelperPaths { log_proxy, group_reaper })
    }
}

// Command lines
/// Decimal spelling of an integer, with `-` for negatives.
pub open spec fn int_text(v: int) -> Seq<char> {
    if v < 0 {
        "-"@ + decimal((-v) as nat)
    } else {
        decimal(v as nat)
    }
}

fn i32_string(v: i32) -> (r: String)
    ensures
        r@ == int_text(v as int),
{
    if v < 0 {
        let magnitude: u64 = (0i64 - (v as i64)) as u64;
        let digits = decimal_u64(magnitude);
        let mut r = "-".to_string();
        let d = string_of(&digits);
        push_str(&mut r, d.as_str());
        r
    } else {
        let digits = decimal_u64(v as u64);
        string_of(&digits)
    }
}

fn usize_string(v: usize) -> (r: String)
    ensures
        r@ == decimal(v as nat),
{
    let digits = decimal_u64(v as u64);
    string_of(&digits)
}

pub open spec fn strings(v: Seq<String>) -> Seq<Seq<char>> {
    v.map_values(|s: String| s@)
}

/// Debug-only arguments that make the proxy fail after this many appends.
pub open spec fn proxy_test_args(fail_after: Option<nat>) -> Seq<Seq<char>> {
    match fail_after {
        Some(n) => seq!["--test-fail-after-appends"@, decimal(n)],
        None => Seq::empty(),
    }
}

/// Debug-only arguments of the reaper with index `index`.
pub open spec fn reaper_test_args(withhold_ack: bool, crash_first: bool, index: nat) -> Seq<Seq<char>> {
    (if withhold_ack {
        seq!["--test-withhold-takeover-ack"@]
    } else {
        Seq::empty()
    }) + (if index == 0 && crash_first {
        seq!["--test-crash-after-start"@]
    } else {
        Seq::empty()
    })
}

/// `--control-fd <fd>` for each descriptor, in order.
pub open spec fn control_fd_args(fds: Seq<int>) -> Seq<Seq<char>>
    decreases fds.len(),
{
    if fds.len() == 0 {
        Seq::empty()
    } else {
        seq!["--control-fd"@, int_text(fds[0])] + control_fd_args(fds.drop_first())
    }
}

/// The proxy's command line after its program name.
pub open spec fn proxy_args_spec(
    fail_after: Option<nat>,
    journal: Seq<char>,
    fds: Seq<int>,
    command: Seq<char>,
    args: Seq<Seq<char>>,
) -> Seq<Seq<char>> {
    proxy_test_args(fail_after) + seq!["--journal"@, journal] + control_fd_args(fds) + seq![
        "--"@,
        command,
    ] + args
}

/// The reaper's command line after its program name.
pub open spec fn reaper_args_spec(fd: int, withhold_ack: bool, crash_first: bool, index: nat) -> Seq<
    Seq<char>,
> {
    seq!["--control-fd"@, int_text(fd)] + reaper_test_args(withhold_ack, crash_first, index)
}

pub open spec fn fail_after_of(c: DetachedTestControls) -> Option<nat> {
    match c.proxy_fail_after_appends {
        Some(n) => Some(n as nat),
        None => None,
    }
}

pub open spec fn fds_of(v: Seq<i32>) -> Seq<int> {
    v.map_values(|f: i32| f as int)
}

proof fn lemma_control_fd_args_push(fds: Seq<int>, fd: int)
    ensures
        control_fd_args(fds.push(fd)) == control_fd_args(fds) + seq!["--control-fd"@, int_text(fd)],
    decreases fds.len(),
{
    if fds.len() == 0 {
        assert(fds.push(fd).drop_first() =~= Seq::<int>::empty());
        assert(fds.push(fd)[0] == fd);
        assert(control_fd_args(Seq::<int>::empty()) == Seq::<Seq<char>>::empty());
        assert(control_fd_args(fds.push(fd)) =~= seq!["--control-fd"@, int_text(fd)] + Seq::<Seq<char>>::empty());
        assert(control_fd_args(fds) == Seq::<Seq<char>>::empty());
    } else {
        assert(fds.push(fd).drop_first() =~= fds.drop_first().push(fd));
        lemma_control_fd_args_push(fds.drop_first(), fd);
        assert(control_fd_args(fds.push(fd)) =~= seq!["--control-fd"@, int_text(fds[0])] + (
        control_fd_args(fds.drop_first()) + seq!["--control-fd"@, int_text(fd)]));
    }
}

/// The proxy's command line: debug fault arguments, the journal, one
/// `--control-fd` per cleanup channel, `--`, then the target's command and
/// arguments.
pub fn proxy_arguments(
    controls: &DetachedTestControls,
    journal: &str,
    control_fds: &Vec<i32>,
    command: &str,
    args: &Vec<String>,
) -> (r: Vec<String>)
    ensures
        strings(r@) == proxy_args_spec(
            fail_after_of(*controls),
            journal@,
            fds_of(control_fds@),
            command@,
            strings(args@),
        ),
{
    let mut r: Vec<String> = Vec::new();
    if let Some(n) = controls.proxy_fail_after_appends {
        r.push("--test-fail-after-appends".to_string());
        r.push(usize_string(n));
    }
    r.push("--journal".to_string());
    r.push(journal.to_string());
    proof {
        assert(strings(r@) =~= proxy_test_args(fail_after_of(*controls)) + seq!["--journal"@, journal@]);
        assert(fds_of(control_fds@).take(0) =~= Seq::<int>::empty());
        assert(strings(r@) =~= proxy_test_args(fail_after_of(*controls)) + seq!["--journal"@, journal@]
            + control_fd_args(fds_of(control_fds@).take(0)));
    }
    let ghost head = proxy_test_args(fail_after_of(*controls)) + seq!["--journal"@, journal@];
    let mut i: usize = 0;
    while i < control_fds.len()
        invariant
            i <= control_fds@.len(),
            strings(r@) == head + control_fd_args(fds_of(control_fds@).take(i as int)),
        decreases control_fds@.len() - i,
    {
        r.push("--control-fd".to_string());
        r.push(i32_string(control_fds[i]));
        proof {
            let fds = fds_of(control_fds@);
            assert(fds.take(i + 1) =~= fds.take(i as int).push(fds[i as int]));
            lemma_control_fd_args_push(fds.take(i as int), fds[i as int]);
            assert(strings(r@) =~= head + control_fd_args(fds.take(i as int)) + seq![
                "--control-fd"@,
                int_text(fds[i as int]),
            ]);
        }
        i += 1;
    }
    proof {
        assert(fds_of(control_fds@).take(control_fds@.len() as int) =~= fds_of(control_fds@));
    }
    r.push("--".to_string());
    r.push(command.to_string());
    let ghost mid = strings(r@);
    let mut k: usize = 0;
    while k < args.len()
        invariant
            k <= args@.len(),
            strings(r@) == mid + strings(args@).take(k as int),
        decreases args@.len() - k,
    {
        let ghost before = r@;
        let a = args[k].clone();
        r.push(a);
        proof {
            assert(strings(r@) =~= strings(before).push(args@[k as int]@));
            assert(strings(args@).take(k + 1) =~= strings(args@).take(k as int).push(args@[k as int]@));
            assert(strings(r@) =~= mid + strings(args@).take(k + 1));
        }
        k += 1;
    }
    proof {
        assert(strings(args@).take(args@.len() as int) =~= strings(args@));
        assert(strings(r@) =~= proxy_args_spec(
            fail_after_of(*controls),
            journal@,
            fds_of(control_fds@),
            command@,
            strings(args@),
        ));
    }
    r
}

/// The command line of the reaper with index `index` (its control channel
/// `fd`, then its debug fault flags; only the first reaper may crash).
pub fn reaper_arguments(fd: i32, controls: &DetachedTestControls, index: usize) -> (r: Vec<String>)
    ensures
        strings(r@) == reaper_args_spec(
            fd as int,
            controls.reaper_withhold_takeover_ack,
            controls.first_reaper_crash_after_start,
            index as nat,
        ),
{
    let mut r: Vec<String> = Vec::new();
    r.push("--control-fd".to_string());
    r.push(i32_string(fd));
    if controls.reaper_withhold_takeover_ack {
        r.push("--test-withhold-takeover-ack".to_string());
    }
    if index == 0 && controls.first_reaper_crash_after_start {
        r.push("--test-crash-after-start".to_string());
    }
    proof {
        assert(strings(r@) =~= reaper_args_spec(
            fd as int,
            controls.reaper_withhold_takeover_ack,
            controls.first_reaper_crash_after_start,
            index as nat,
        ));
    }
    r
}

// Reading the command lines back
/// A descriptor argument: a non-negative `i32` (Rust's `str::parse`, so
/// `+7` and `-0` are accepted).
pub open spec fn parse_fd(s: Seq<char>) -> Option<int> {
    if s.len() > 0 && s[0] == '-' {
        let body = s.drop_first();
        if body.len() > 0 && all_digits(body) && digits_value(body) == 0 {
            Some(0)
        } else {
            None
        }
    } else {
        match parse_unsigned(s, 2147483647) {
            Some(v) => Some(v as int),
            None => None,
        }
    }
}

fn parse_fd_exec(s: &str) -> (r: Option<i32>)
    ensures
        r matches Some(v) ==> parse_fd(s@) == Some(v as int),
        r is None ==> parse_fd(s@) is None,
{
    let chars = chars_of(s);
    if chars.len() > 0 && chars[0] == '-' {
        let body = crate::text::slice_vec(&chars, 1, chars.len());
        proof {
            assert(body@ =~= s@.drop_first());
        }
        if body.len() > 0 && body[0] == '+' {
            proof {
                assert(!crate::text::is_digit(body@[0]));
            }
            return None;
        }
        match parse_unsigned_chars(body.as_slice(), 0) {
            Some(_) => Some(0),
            None => None,
        }
    } else {
        match parse_unsigned_chars(chars.as_slice(), 2147483647) {
            Some(v) => {
                let fd: i32 = v as i32;
                Some(fd)
            },
            None => None,
        }
    }
}

/// What the reaper was asked to do.
#[derive(Debug, Clone, Copy, PartialEq, Eq, Structural)]
pub struct ReaperInvocation {
    pub control_fd: i32,
    pub withhold_takeover_ack: bool,
    pub crash_after_start: bool,
}

pub open spec fn reaper_flags(
    args: Seq<Seq<char>>,
    withhold: bool,
    crash: bool,
) -> Option<(bool, bool)>
    decreases args.len(),
{
    if args.len() == 0 {
        Some((withhold, crash))
    } else if args[0] == "--test-withhold-takeover-ack"@ {
        reaper_flags(args.drop_first(), true, crash)
    } else if args[0] == "--test-crash-after-start"@ {
        reaper_flags(args.drop_first(), withhold, true)
    } else {
        None
    }
}

pub open spec fn parse_reaper_spec(args: Seq<Seq<char>>) -> Option<(int, bool, bool)> {
    if args.len() < 2 || args[0] != "--control-fd"@ {
        None
    } else {
        match parse_fd(args[1]) {
            None => None,
            Some(fd) => match reaper_flags(args.skip(2), false, false) {
                Some((w, c)) => Some((fd, w, c)),
                None => None,
            },
        }
    }
}

/// Reads the reaper's command line; `None` is a usage error.
pub fn parse_reaper_arguments(args: &Vec<String>) -> (r: Option<ReaperInvocation>)
    ensures
        match r {
            Some(inv) => parse_reaper_spec(strings(args@)) == Some(
                (inv.control_fd as int, inv.withhold_takeover_ack, inv.crash_after_start),
            ),
            None => parse_reaper_spec(strings(args@)) is None,
        },
{
    if args.len() < 2 || !str_eq(args[0].as_str(), "--control-fd") {
        return None;
    }
    let fd = match parse_fd_exec(args[1].as_str()) {
        Some(fd) => fd,
        None => {
            return None;
        },
    };
    let ghost all = strings(args@);
    let mut withhold = false;
    let mut crash = false;
    let mut i: usize = 2;
    proof {
        assert(all.skip(2) =~= all.skip(i as int));
    }
    while i < args.len()
        invariant
            2 <= i <= args@.len(),
            all == strings(args@),
            reaper_flags(all.skip(2), false, false) == reaper_flags(all.skip(i as int), withhold, crash),
        decreases args@.len() - i,
    {
        proof {
            assert(all.skip(i as int)[0] == args@[i as int]@);
            assert(all.skip(i as int).drop_first() =~= all.skip(i + 1));
        }
        if str_eq(args[i].as_str(), "--test-withhold-takeover-ack") {
            withhold = true;
        } else if str_eq(args[i].as_str(), "--test-crash-after-start") {
            crash = true;
        } else {
            return None;
        }
        i += 1;
    }
    proof {
        assert(all.skip(i as int) =~= Seq::<Seq<char>>::empty());
    }
    Some(ReaperInvocation { control_fd: fd, withhold_takeover_ack: withhold, crash_after_start: crash })
}

/// What the proxy was asked to run.
#[derive(Debug, Clone, PartialEq, Eq)]
pub struct ProxyRun {
    pub fail_after_appends: Option<u64>,
    pub journal: String,
    pub control_fds: Vec<i32>,
    pub command: String,
    pub args: Vec<String>,
}

/// The proxy's two modes: the idle group anchor, or a proxied target.
#[derive(Debug, Clone, PartialEq, Eq)]
pub enum ProxyInvocation {
    GroupAnchor,
    Run(ProxyRun),
}

/// `--control-fd <fd>` pairs at the front of `rest`: the descriptors and
/// what follows them, or `None` if a descriptor is malformed.
pub open spec fn leading_fds(rest: Seq<Seq<char>>) -> Option<(Seq<int>, Seq<Seq<char>>)>
    decreases rest.len(),
{
    if rest.len() > 0 && rest[0] == "--control-fd"@ {
        if rest.len() < 2 {
            None
        } else {
            match parse_fd(rest[1]) {
                None => None,
                Some(fd) => match leading_fds(rest.skip(2)) {
                    Some((fds, tail)) => Some((seq![fd] + fds, tail)),
                    None => None,
                },
            }
        }
    } else {
        Some((Seq::empty(), rest))
    }
}

/// A proxied run as plain values: fault budget, journal, descriptors,
/// command and arguments.
pub type ProxyRunView = (Option<nat>, Seq<char>, Seq<int>, Seq<char>, Seq<Seq<char>>);

pub open spec fn parse_run_after_journal(fail: Option<nat>, rest: Seq<Seq<char>>) -> Option<ProxyRunView> {
    if rest.len() < 2 || rest[0] != "--journal"@ {
        None
    } else {
        let journal = rest[1];
        match leading_fds(rest.skip(2)) {
            None => None,
            Some((fds, tail)) => if tail.len() < 2 || tail[0] != "--"@ {
                None
            } else {
                Some((fail, journal, fds, tail[1], tail.skip(2)))
            },
        }
    }
}

/// The proxy's reading of its command line (`None`: usage error; the
/// outer `Some(None)` is the group-anchor mode).
pub open spec fn parse_proxy_spec(args: Seq<Seq<char>>) -> Option<Option<ProxyRunView>> {
    if args.len() > 0 && args[0] == "--group-anchor"@ {
        if args.len() > 1 {
            None
        } else {
            Some(None)
        }
    } else if args.len() > 0 && args[0] == "--test-fail-after-appends"@ {
        if args.len() < 2 {
            None
        } else {
            match parse_unsigned(args[1], u64::MAX as nat) {
                None => None,
                Some(n) => match parse_run_after_journal(Some(n), args.skip(2)) {
                    Some(run) => Some(Some(run)),
                    None => None,
                },
            }
        }
    } else {
        match parse_run_after_journal(None, args) {
            Some(run) => Some(Some(run)),
            None => None,
        }
    }
}

pub open spec fn run_view(run: ProxyRun) -> ProxyRunView {
    (
        match run.fail_after_appends {
            Some(n) => Some(n as nat),
            None => None,
        },
        run.journal@,
        fds_of(run.control_fds@),
        run.command@,
        strings(run.args@),
    )
}

fn strings_from(args: &Vec<String>, start: usize) -> (r: Vec<String>)
    requires
        start <= args@.len(),
    ensures
        strings(r@) == strings(args@).skip(start as int),
{
    let mut r: Vec<String> = Vec::new();
    let mut i: usize = start;
    while i < args.len()
        invariant
            start <= i <= args@.len(),
            strings(r@) == strings(args@).subrange(start as int, i as int),
        decreases args@.len() - i,
    {
        r.push(args[i].clone());
        proof {
            assert(strings(args@).subrange(start as int, i + 1) =~= strings(args@).subrange(
                start as int,
                i as int,
            ).push(args@[i as int]@));
            assert(strings(r@) =~= strings(args@).subrange(start as int, i + 1));
        }
        i += 1;
    }
    proof {
        assert(strings(args@).subrange(start as int, args@.len() as int) =~= strings(args@).skip(start as int));
    }
    r
}

fn parse_run_exec(args: &Vec<String>, from: usize, fail: Option<u64>) -> (r: Option<ProxyRun>)
    requires
        from <= args@.len(),
    ensures
        match r {
            Some(run) => parse_run_after_journal(
                match fail {
                    Some(n) => Some(n as nat),
                    None => None,
                },
                strings(args@).skip(from as int),
            ) == Some(run_view(run)),
            None => parse_run_after_journal(
                match fail {
                    Some(n) => Some(n as nat),
                    None => None,
                },
                strings(args@).skip(from as int),
            ) is None,
        },
{
    let ghost all = strings(args@);
    let ghost rest = all.skip(from as int);
    if args.len() - from < 2 || !str_eq(args[from].as_str(), "--journal") {
        proof {
            if args.len() - from >= 2 {
                assert(rest[0] == args@[from as int]@);
            }
        }
        return None;
    }
    proof {
        assert(rest[0] == args@[from as int]@);
        assert(rest[1] == args@[from + 1]@);
    }
    let journal = args[from + 1].clone();
    let mut fds: Vec<i32> = Vec::new();
    let mut pos: usize = from + 2;
    proof {
        assert(rest.skip(2) =~= all.skip(pos as int));
    }
    let ghost target = leading_fds(rest.skip(2));
    while pos < args.len() && str_eq(args[pos].as_str(), "--control-fd")
        invariant
            from + 2 <= pos <= args@.len(),
            all == strings(args@),
            rest == all.skip(from as int),
            target == leading_fds(rest.skip(2)),
            target == match leading_fds(all.skip(pos as int)) {
                Some((more, tail)) => Some((fds_of(fds@) + more, tail)),
                None => None,
            },
        decreases args@.len() - pos,
    {
        proof {
            assert(all.skip(pos as int)[0] == args@[pos as int]@);
        }
        if pos + 1 >= args.len() {
            proof {
                assert(all.skip(pos as int).len() < 2);
            }
            return None;
        }
        proof {
            assert(all.skip(pos as int)[1] == args@[pos + 1]@);
            assert(all.skip(pos as int).skip(2) =~= all.skip(pos + 2));
        }
        let fd = match parse_fd_exec(args[pos + 1].as_str()) {
            Some(fd) => fd,
            None => {
                return None;
            },
        };
        proof {
            let ghost before = fds_of(fds@);
            match leading_fds(all.skip(pos + 2)) {
                Some((more, tail)) => {
                    assert(fds_of(fds@.push(fd)) =~= before.push(fd as int));
                    assert(before + (seq![fd as int] + more) =~= before.push(fd as int) + more);
                },
                None => {},
            }
        }
        fds.push(fd);
        proof {
            assert(fds_of(fds@) =~= fds_of(fds@));
        }
        pos = pos + 2;
    }
    proof {
        if pos < args.len() {
            assert(all.skip(pos as int)[0] == args@[pos as int]@);
        }
        assert(leading_fds(all.skip(pos as int)) == Some((Seq::<int>::empty(), all.skip(pos as int))));
        assert(fds_of(fds@) + Seq::<int>::empty() =~= fds_of(fds@));
    }
    let ghost tail = all.skip(pos as int);
    if args.len() - pos < 2 || !str_eq(args[pos].as_str(), "--") {
        proof {
            if args.len() - pos >= 2 {
                assert(tail[0] == args@[pos as int]@);
            }
        }
        return None;
    }
    proof {
        assert(tail[0] == args@[pos as int]@);
        assert(tail[1] == args@[pos + 1]@);
        assert(tail.skip(2) =~= all.skip(pos + 2));
    }
    let command = args[pos + 1].clone();
    let rest_args = strings_from(args, pos + 2);
    Some(ProxyRun { fail_after_appends: fail, journal, control_fds: fds, command, args: rest_args })
}

/// Reads the proxy's command line (as written by `proxy_arguments`, or
/// `--group-anchor` alone); `None` is a usage error.
pub fn parse_proxy_arguments(args: &Vec<String>) -> (r: Option<ProxyInvocation>)
    ensures
        match r {
            None => parse_proxy_spec(strings(args@)) is None,
            Some(ProxyInvocation::GroupAnchor) => parse_proxy_spec(strings(args@)) == Some(
                None::<ProxyRunView>,
            ),
            Some(ProxyInvocation::Run(run)) => parse_proxy_spec(strings(args@)) == Some(
                Some(run_view(run)),
            ),
        },
{
    let ghost all = strings(args@);
    if args.len() > 0 && str_eq(args[0].as_str(), "--group-anchor") {
        if args.len() > 1 {
            return None;
        }
        return Some(ProxyInvocation::GroupAnchor);
    }
    proof {
        if args@.len() > 0 {
            assert(all[0] == args@[0]@);
        }
    }
    if args.len() > 0 && str_eq(args[0].as_str(), "--test-fail-after-appends") {
        if args.len() < 2 {
            return None;
        }
        proof {
            assert(all[1] == args@[1]@);
        }
        let value = chars_of(args[1].as_str());
        let n = match parse_unsigned_chars(value.as_slice(), u64::MAX) {
            Some(n) => n,
            None => {
                return None;
            },
        };
        return match parse_run_exec(args, 2, Some(n)) {
            Some(run) => Some(ProxyInvocation::Run(run)),
            None => None,
        };
    }
    proof {
        assert(all.skip(0) =~= all);
    }
    match parse_run_exec(args, 0, None) {
        Some(run) => Some(ProxyInvocation::Run(run)),
        None => None,
    }
}

// The two sides agree
proof fn lemma_parse_int_text(v: int)
    requires
        0 <= v <= 2147483647,
    ensures
        parse_fd(int_text(v)) == Some(v),
{
    lemma_decimal(v as nat);
    lemma_parse_zero_padded(v as nat, 0, 2147483647);
    assert(zero_pad(decimal(v as nat), 0) == decimal(v as nat));
    let d = decimal(v as nat);
    assert(crate::text::is_digit(d[0]));
}

proof fn lemma_leading_fds(fds: Seq<int>, tail: Seq<Seq<char>>)
    requires
        forall|i: int| 0 <= i < fds.len() ==> 0 <= #[trigger] fds[i] <= 2147483647,
        tail.len() == 0 || tail[0] != "--control-fd"@,
    ensures
        leading_fds(control_fd_args(fds) + tail) == Some((fds, tail)),
    decreases fds.len(),
{
    if fds.len() == 0 {
        assert(control_fd_args(fds) + tail =~= tail);
    } else {
        let rest = fds.drop_first();
        lemma_leading_fds(rest, tail);
        lemma_parse_int_text(fds[0]);
        let all = control_fd_args(fds) + tail;
        assert(all == seq!["--control-fd"@, int_text(fds[0])] + (control_fd_args(rest) + tail));
        assert(all[0] == "--control-fd"@);
        assert(all[1] == int_text(fds[0]));
        assert(all.skip(2) =~= control_fd_args(rest) + tail);
        assert(seq![fds[0]] + rest =~= fds);
    }
}

proof fn lemma_reaper_flags(withhold: bool, crash: bool, index: nat)
    ensures
        reaper_flags(reaper_test_args(withhold, crash, index), false, false) == Some(
            (withhold, index == 0 && crash),
        ),
{
    let w = "--test-withhold-takeover-ack"@;
    let c = "--test-crash-after-start"@;
    assert(c != w) by {
        reveal_strlit("--test-crash-after-start");
        reveal_strlit("--test-withhold-takeover-ack");
        assert(c[7] != w[7]);
    }
    let empty = Seq::<Seq<char>>::empty();
    let only_c = seq![c];
    assert(only_c[0] == c);
    assert(only_c.drop_first() =~= empty);
    assert(reaper_flags(empty, true, true) == Some((true, true)));
    assert(reaper_flags(empty, false, true) == Some((false, true)));
    assert(reaper_flags(only_c, true, false) == reaper_flags(empty, true, true));
    assert(reaper_flags(only_c, false, false) == reaper_flags(empty, false, true));
    let a = reaper_test_args(withhold, crash, index);
    if withhold {
        if index == 0 && crash {
            assert(a =~= seq![w, c]);
            assert(a[0] == w);
            assert(a.drop_first() =~= only_c);
            assert(reaper_flags(a, false, false) == reaper_flags(only_c, true, false));
        } else {
            assert(a =~= seq![w]);
            assert(a[0] == w);
            assert(a.drop_first() =~= empty);
            assert(reaper_flags(a, false, false) == reaper_flags(empty, true, false));
        }
    } else if index == 0 && crash {
        assert(a =~= only_c);
    } else {
        assert(a =~= empty);
    }
}

/// The reaper reads back exactly what the spawner wrote: its control
/// descriptor and its fault flags (the crash flag only for the first
/// reaper).
pub proof fn lemma_reaper_arguments_round_trip(fd: int, withhold: bool, crash: bool, index: nat)
    requires
        0 <= fd <= 2147483647,
    ensures
        parse_reaper_spec(reaper_args_spec(fd, withhold, crash, index)) == Some(
            (fd, withhold, index == 0 && crash),
        ),
{
    let a = reaper_args_spec(fd, withhold, crash, index);
    lemma_parse_int_text(fd);
    lemma_reaper_flags(withhold, crash, index);
    assert(a[0] == "--control-fd"@);
    assert(a[1] == int_text(fd));
    assert(a.skip(2) =~= reaper_test_args(withhold, crash, index));
}

/// The proxy reads back exactly what the spawner wrote: its fault budget,
/// journal, every control descriptor in order, and the target's command
/// and arguments, whatever those strings are.
pub proof fn lemma_proxy_arguments_round_trip(
    fail_after: Option<nat>,
    journal: Seq<char>,
    fds: Seq<int>,
    command: Seq<char>,
    args: Seq<Seq<char>>,
)
    requires
        forall|i: int| 0 <= i < fds.len() ==> 0 <= #[trigger] fds[i] <= 2147483647,
        fail_after matches Some(n) ==> n <= u64::MAX,
    ensures
        parse_proxy_spec(proxy_args_spec(fail_after, journal, fds, command, args)) == Some(
            Some((fail_after, journal, fds, command, args)),
        ),
{
    reveal_strlit("--group-anchor");
    reveal_strlit("--test-fail-after-appends");
    reveal_strlit("--journal");
    reveal_strlit("--control-fd");
    reveal_strlit("--");
    let tail = seq!["--"@, command] + args;
    assert(tail[0] == "--"@);
    assert("--"@.len() != "--control-fd"@.len());
    lemma_leading_fds(fds, tail);
    let after = seq!["--journal"@, journal] + control_fd_args(fds) + tail;
    assert(after[0] == "--journal"@);
    assert(after[1] == journal);
    assert(after.skip(2) =~= control_fd_args(fds) + tail);
    assert(tail[0] == "--"@);
    assert(tail[1] == command);
    assert(tail.skip(2) =~= args);
    assert(parse_run_after_journal(fail_after, after) == Some((fail_after, journal, fds, command, args)));
    let all = proxy_args_spec(fail_after, journal, fds, command, args);
    match fail_after {
        Some(n) => {
            assert(all =~= seq!["--test-fail-after-appends"@, decimal(n)] + after);
            assert(all[0] == "--test-fail-after-appends"@);
            assert(all[1] == decimal(n));
            lemma_parse_zero_padded(n, 0, u64::MAX as nat);
            assert(zero_pad(decimal(n), 0) == decimal(n));
            assert(all.skip(2) =~= after);
            assert(all[0] != "--group-anchor"@);
        },
        None => {
            assert(all =~= after);
            assert(all[0] != "--group-anchor"@);
            assert(all[0] != "--test-fail-after-appends"@);
        },
    }
}

} // verus!
