//! What the app asks rclone to do and how a run's result is read: the
//! argument vectors of each command, the empty-source guard, the combined
//! output of a run, and the listing of remote folders.
use crate::model::{
    project_views, remote_location_of, remote_named, texts, text_view, AppConfig, ConfigView,
    Project, ProjectView, RemoteConfig, Text,
};
use crate::rclone_args::{exclude_args, non_blank, transfer_args, build_exclude_args, build_transfer_args, project_exclude_args};
use crate::filters::{transfers_message, transfers_ok};
use crate::rclone_output::{lines, os_junk, size_count, size_count_message, split_lines, is_os_junk, parse_rclone_size_count};
use crate::settings::has_name;
use crate::text::{concat, concat3, copy_text, decimal, decimal_string, is_ws, same_text, string_from_chars, trim_end, is_whitespace};
use vstd::prelude::*;

verus! {

broadcast use vstd::seq_lib::group_seq_properties;

// ---------------------------------------------------------------------------
// Reading a child's pipe.
/// `String::from_utf8_lossy`: the bytes as text, each invalid sequence
/// replaced by U+FFFD.
pub uninterp spec fn utf8_lossy(bytes: Seq<u8>) -> Text;

/// `String::from_utf8_lossy(bytes).into_owned()`; the result depends on the
/// bytes alone, so it is named.
#[verifier::external_body]
fn lossy_text(bytes: &Vec<u8>) -> (r: String)
    ensures
        r@ == utf8_lossy(bytes@),
{
    String::from_utf8_lossy(bytes.as_slice()).into_owned()
}

/// The text of a child's pipe, given what reading it to the end gave (`None`
/// for a pipe that was never opened). A failed read is an error, never a
/// short string: output that silently went missing would read as a clean run.
pub fn drain(read: Option<Result<Vec<u8>, String>>, which: &str) -> (r: Result<String, String>)
    ensures
        match read {
            None => r matches Ok(s) && s@.len() == 0,
            Some(Ok(b)) => r matches Ok(s) && s@ == utf8_lossy(b@),
            Some(Err(e)) => r matches Err(x) && x@ == "Failed to read rclone "@ + which@ + ": "@ + e@,
        },
{
    match read {
        None => Ok(String::new()),
        Some(Ok(bytes)) => Ok(lossy_text(&bytes)),
        Some(Err(e)) => {
            let a = concat3("Failed to read rclone ", which, ": ");
            proof {
                reveal_strlit("Failed to read rclone ");
                reveal_strlit(": ");
            }
            Err(concat(a.as_str(), e.as_str()))
        },
    }
}

/// Each non-empty line followed by a line break.
pub open spec fn nonempty_lines_text(ls: Seq<Text>) -> Text
    decreases ls.len(),
{
    if ls.len() == 0 {
        Seq::empty()
    } else if ls.last().len() == 0 {
        nonempty_lines_text(ls.drop_last())
    } else {
        nonempty_lines_text(ls.drop_last()) + ls.last() + seq!['\n']
    }
}

fn append_lines(out: &mut Vec<char>, s: &str)
    ensures
        final(out)@ == old(out)@ + nonempty_lines_text(lines(s@)),
{
    let ls = split_lines(s);
    let ghost lv = ls@.map_values(|l: Vec<char>| l@);
    let ghost start = out@;
    let mut i: usize = 0;
    while i < ls.len()
        invariant
            i <= ls.len(),
            lv == ls@.map_values(|l: Vec<char>| l@),
            lv == lines(s@),
            out@ == start + nonempty_lines_text(lv.take(i as int)),
        decreases ls.len() - i,
    {
        assert(lv.take(i + 1).drop_last() =~= lv.take(i as int));
        assert(lv.take(i + 1).last() == ls@[i as int]@);
        let line = &ls[i];
        if line.len() > 0 {
            let ghost before = out@;
            let n = line.len();
            let mut j: usize = 0;
            while j < n
                invariant
                    j <= n,
                    n == line@.len(),
                    out@ == before + line@.take(j as int),
                decreases n - j,
            {
                out.push(line[j]);
                j = j + 1;
                assert(out@ =~= before + line@.take(j as int));
            }
            assert(line@.take(n as int) =~= line@);
            out.push('\n');
            assert(out@ =~= start + nonempty_lines_text(lv.take(i + 1)));
        }
        i = i + 1;
    }
    assert(lv.take(ls.len() as int) =~= lv);
}

/// The combined output of a run: every non-empty line of stdout, then of
/// stderr, each ending in a line break.
pub fn combine_output(stdout: &str, stderr: &str) -> (r: String)
    ensures
        r@ == nonempty_lines_text(lines(stdout@)) + nonempty_lines_text(lines(stderr@)),
{
    let mut out: Vec<char> = Vec::new();
    append_lines(&mut out, stdout);
    append_lines(&mut out, stderr);
    string_from_chars(&out)
}

/// The result of a finished run, from what waiting and reading gave. A
/// cancel the user asked for explains a killed process, so it is reported
/// first; a failed read or wait is an error; a process that died on a signal
/// has the exit code -1.
pub fn run_result(
    cancelled: bool,
    stdout: Result<String, String>,
    stderr: Result<String, String>,
    status: Result<Option<i32>, String>,
) -> (r: Result<(String, i32), String>)
    ensures
        cancelled ==> (r matches Err(e) && e@ == "CANCELLED"@),
        !cancelled ==> match (stdout, stderr, status) {
            (Err(e), _, _) => r matches Err(x) && x@ == e@,
            (Ok(_), Err(e), _) => r matches Err(x) && x@ == e@,
            (Ok(_), Ok(_), Err(e)) => r matches Err(x) && x@ == "Failed to wait for rclone: "@ + e@,
            (Ok(o), Ok(e), Ok(code)) => r matches Ok((text, c)) && text@ == nonempty_lines_text(lines(o@))
                + nonempty_lines_text(lines(e@)) && c == match code {
                Some(k) => k,
                None => -1i32,
            },
        },
{
    if cancelled {
        proof {
            reveal_strlit("CANCELLED");
        }
        return Err(String::from_str(crate::operations::CANCELLED));
    }
    let out = stdout?;
    let err = stderr?;
    let code = match status {
        Ok(c) => c,
        Err(e) => {
            proof {
                reveal_strlit("Failed to wait for rclone: ");
            }
            return Err(concat("Failed to wait for rclone: ", e.as_str()));
        },
    };
    let text = combine_output(out.as_str(), err.as_str());
    let c = match code {
        Some(k) => k,
        None => -1,
    };
    Ok((text, c))
}

// ---------------------------------------------------------------------------
// Argument vectors.
/// The filters every command over a project carries: the global excludes,
/// then the project's own.
pub open spec fn filter_args(c: ConfigView, p: ProjectView) -> Seq<Text> {
    exclude_args(c.excludes) + exclude_args(non_blank(p.excludes))
}

fn push_text(v: &mut Vec<String>, s: &str)
    ensures
        texts(final(v)@) == texts(old(v)@).push(s@),
{
    v.push(copy_text(s));
    assert(texts(final(v)@) =~= texts(old(v)@).push(s@));
}

fn append_all(v: &mut Vec<String>, w: Vec<String>)
    ensures
        texts(final(v)@) == texts(old(v)@) + texts(w@),
{
    let mut w = w;
    let ghost start = texts(v@);
    let ghost tw = texts(w@);
    v.append(&mut w);
    assert(texts(v@) =~= start + tw);
}

pub open spec fn probe_argv(c: ConfigView, p: ProjectView, local: Text) -> Seq<Text> {
    seq!["size"@, local, "--json"@] + filter_args(c, p)
}

pub open spec fn sync_argv(c: ConfigView, p: ProjectView, mode: Text, local: Text, dry_run: bool) -> Seq<Text> {
    (if mode == "pull"@ {
        seq!["sync"@, remote_location_of(c, p), local]
    } else {
        seq!["sync"@, local, remote_location_of(c, p)]
    }) + filter_args(c, p) + transfer_args(c.rclone_transfers) + seq!["-v"@] + (if dry_run {
        seq!["--dry-run"@]
    } else {
        Seq::empty()
    })
}

/// A dry run is the same transfer with `--dry-run` last, in every mode, a
/// pull included: the preview differs from the real run by that flag alone,
/// and a run that is not a dry run ends with `-v` and never with the flag.
pub proof fn law_dry_run_only_adds_the_preview_flag(c: ConfigView, p: ProjectView, mode: Text, local: Text)
    ensures
        sync_argv(c, p, mode, local, true) == sync_argv(c, p, mode, local, false).push("--dry-run"@),
        sync_argv(c, p, mode, local, true).last() == "--dry-run"@,
        sync_argv(c, p, mode, local, false).last() == "-v"@,
        sync_argv(c, p, mode, local, false).len() >= 4,
{
    assert(sync_argv(c, p, mode, local, true) =~= sync_argv(c, p, mode, local, false).push("--dry-run"@));
}

/// The empty-source guard is only as good as its agreement with the sync it
/// guards: the probe and the sync carry exactly the same filter arguments,
/// in the same place, and the probe carries nothing else (no transfer
/// setting or any other flag that could change what it counts).
pub proof fn law_probe_and_sync_share_filters(c: ConfigView, p: ProjectView, mode: Text, local: Text, dry_run: bool)
    ensures
        ({
            let f = filter_args(c, p);
            let probe = probe_argv(c, p, local);
            let sync = sync_argv(c, p, mode, local, dry_run);
            &&& probe.subrange(3, probe.len() as int) == f
            &&& probe.len() == 3 + f.len()
            &&& sync.subrange(3, 3 + f.len() as int) == f
        }),
{
    let f = filter_args(c, p);
    let probe = probe_argv(c, p, local);
    let sync = sync_argv(c, p, mode, local, dry_run);
    assert(probe.subrange(3, probe.len() as int) =~= f);
    assert(sync.subrange(3, 3 + f.len() as int) =~= f);
}

/// `rclone size LOCAL --json` with the project's filters: the empty-source
/// probe asks rclone itself, with exactly the filters the sync will use and
/// nothing else.
pub fn size_probe_args(cfg: &AppConfig, project: &Project, local: &str) -> (r: Vec<String>)
    ensures
        texts(r@) == probe_argv(cfg@, project@, local@),
{
    let mut v: Vec<String> = Vec::new();
    proof {
        reveal_strlit("size");
        reveal_strlit("--json");
    }
    push_text(&mut v, "size");
    push_text(&mut v, local);
    push_text(&mut v, "--json");
    append_all(&mut v, build_exclude_args(cfg));
    append_all(&mut v, project_exclude_args(project));
    assert(texts(v@) =~= seq!["size"@, local@, "--json"@] + filter_args(cfg@, project@));
    v
}

/// The probe's answer: the file count, or an error for a failed run or an
/// unreadable answer.
pub fn source_file_count(output: &str, code: i32, local: &str) -> (r: Result<i64, String>)
    ensures
        code != 0 ==> (r matches Err(e) && e@ == "Could not check whether '"@ + local@
            + "' has anything to sync (rclone size exited "@ + decimal(code as int) + "):\n"@ + output@),
        code == 0 ==> match size_count(output@) {
            Some(n) => r == Ok::<i64, String>(n),
            None => r matches Err(e) && e@ == size_count_message(output@),
        },
{
    if code != 0 {
        let a = concat3("Could not check whether '", local, "' has anything to sync (rclone size exited ");
        let n = decimal_string(code as i64);
        let b = concat3(a.as_str(), n.as_str(), "):\n");
        proof {
            reveal_strlit("Could not check whether '");
            reveal_strlit("' has anything to sync (rclone size exited ");
            reveal_strlit("):\n");
        }
        return Err(concat(b.as_str(), output));
    }
    parse_rclone_size_count(output)
}

/// A check made before rclone transfers anything, in the order made.
#[derive(Debug, Clone, Copy, PartialEq, Eq)]
pub enum Preflight {
    /// The local folder must exist.
    RequireLocalPath,
    /// Count the source files and refuse an empty source.
    RefuseEmptySource,
}

/// The checks before `rclone sync` in `mode`: a pull writes into the local
/// folder, so it checks nothing; a push checks the folder and then refuses an
/// empty source; any other mode only checks the folder.
pub open spec fn sync_preflight_of(mode: Seq<char>) -> Seq<Preflight> {
    if mode == "pull"@ {
        Seq::empty()
    } else if mode == "push"@ {
        seq![Preflight::RequireLocalPath, Preflight::RefuseEmptySource]
    } else {
        seq![Preflight::RequireLocalPath]
    }
}

pub fn sync_preflight(mode: &str) -> (r: Vec<Preflight>)
    ensures
        r@ == sync_preflight_of(mode@),
{
    let mut v: Vec<Preflight> = Vec::new();
    if same_text(mode, "pull") {
        assert(v@ =~= sync_preflight_of(mode@));
        return v;
    }
    v.push(Preflight::RequireLocalPath);
    if same_text(mode, "push") {
        v.push(Preflight::RefuseEmptySource);
    }
    assert(v@ =~= sync_preflight_of(mode@));
    v
}

/// The checks before `rclone bisync`: the folder must exist, and an empty
/// source is refused.
pub fn bisync_preflight() -> (r: Vec<Preflight>)
    ensures
        r@ == seq![Preflight::RequireLocalPath, Preflight::RefuseEmptySource],
{
    let mut v: Vec<Preflight> = Vec::new();
    v.push(Preflight::RequireLocalPath);
    v.push(Preflight::RefuseEmptySource);
    assert(v@ =~= seq![Preflight::RequireLocalPath, Preflight::RefuseEmptySource]);
    v
}

/// Refuse an operation whose source rclone considers empty: `sync` and
/// `bisync` make the destination match the source, so an empty source would
/// delete the remote copy.
pub fn ensure_source_not_empty(count: i64, local: &str, verb: &str, project_name: &str) -> (r: Result<(), String>)
    ensures
        r is Err <==> count == 0,
        r matches Err(e) ==> e@ == "Refusing to "@ + verb@ + ": rclone sees no files in '"@ + local@
            + "' after excludes. Continuing would delete the remote copy of '"@ + project_name@ + "'."@,
{
    if count == 0 {
        let a = concat3("Refusing to ", verb, ": rclone sees no files in '");
        let b = concat3(a.as_str(), local, "' after excludes. Continuing would delete the remote copy of '");
        proof {
            reveal_strlit("Refusing to ");
            reveal_strlit(": rclone sees no files in '");
            reveal_strlit("' after excludes. Continuing would delete the remote copy of '");
            reveal_strlit("'.");
        }
        return Err(concat3(b.as_str(), project_name, "'."));
    }
    Ok(())
}

/// `rclone sync SRC DST` for a push (local to remote) or, with mode "pull",
/// remote to local; filters, the transfer setting, `-v`, and `--dry-run` when
/// asked. A transfer setting out of range is refused.
pub fn sync_args(cfg: &AppConfig, project: &Project, mode: &str, local: &str, dry_run: bool) -> (r: Result<Vec<String>, String>)
    ensures
        !transfers_ok(cfg@.rclone_transfers) ==> (r matches Err(e) && e@ == transfers_message(cfg@.rclone_transfers->0)),
        transfers_ok(cfg@.rclone_transfers) ==> (r matches Ok(v) && texts(v@) == sync_argv(cfg@, project@, mode@, local@, dry_run)),
        r matches Ok(v) ==> (dry_run <==> texts(v@).last() == "--dry-run"@),
{
    proof {
        law_dry_run_only_adds_the_preview_flag(cfg@, project@, mode@, local@);
        reveal_strlit("-v");
        reveal_strlit("--dry-run");
        assert("-v"@.len() != "--dry-run"@.len());
    }
    let remote = cfg.remote_path_for_project(project);
    let mut v: Vec<String> = Vec::new();
    proof {
        reveal_strlit("sync");
        reveal_strlit("pull");
        reveal_strlit("-v");
        reveal_strlit("--dry-run");
    }
    push_text(&mut v, "sync");
    if same_text(mode, "pull") {
        push_text(&mut v, remote.as_str());
        push_text(&mut v, local);
    } else {
        push_text(&mut v, local);
        push_text(&mut v, remote.as_str());
    }
    append_all(&mut v, build_exclude_args(cfg));
    append_all(&mut v, project_exclude_args(project));
    let transfers = build_transfer_args(cfg)?;
    append_all(&mut v, transfers);
    push_text(&mut v, "-v");
    if dry_run {
        push_text(&mut v, "--dry-run");
    }
    Ok(v)
}

/// `rclone bisync LOCAL REMOTE` with filters, the transfer setting and `-v`.
pub fn bisync_args(cfg: &AppConfig, project: &Project, local: &str) -> (r: Result<Vec<String>, String>)
    ensures
        !transfers_ok(cfg@.rclone_transfers) ==> (r matches Err(e) && e@ == transfers_message(cfg@.rclone_transfers->0)),
        transfers_ok(cfg@.rclone_transfers) ==> (r matches Ok(v) && texts(v@) == seq![
            "bisync"@,
            local@,
            remote_location_of(cfg@, project@),
        ] + filter_args(cfg@, project@) + transfer_args(cfg@.rclone_transfers) + seq!["-v"@]),
{
    let remote = cfg.remote_path_for_project(project);
    let mut v: Vec<String> = Vec::new();
    proof {
        reveal_strlit("bisync");
        reveal_strlit("-v");
    }
    push_text(&mut v, "bisync");
    push_text(&mut v, local);
    push_text(&mut v, remote.as_str());
    append_all(&mut v, build_exclude_args(cfg));
    append_all(&mut v, project_exclude_args(project));
    let transfers = build_transfer_args(cfg)?;
    append_all(&mut v, transfers);
    push_text(&mut v, "-v");
    Ok(v)
}

/// `rclone check LOCAL REMOTE --combined -` with the project's filters.
pub fn check_args(cfg: &AppConfig, project: &Project, local: &str) -> (r: Vec<String>)
    ensures
        texts(r@) == seq!["check"@, local@, remote_location_of(cfg@, project@), "--combined"@, "-"@]
            + filter_args(cfg@, project@),
{
    let remote = cfg.remote_path_for_project(project);
    let mut v: Vec<String> = Vec::new();
    proof {
        reveal_strlit("check");
        reveal_strlit("--combined");
        reveal_strlit("-");
    }
    push_text(&mut v, "check");
    push_text(&mut v, local);
    push_text(&mut v, remote.as_str());
    push_text(&mut v, "--combined");
    push_text(&mut v, "-");
    append_all(&mut v, build_exclude_args(cfg));
    append_all(&mut v, project_exclude_args(project));
    assert(texts(v@) =~= seq!["check"@, local@, remote_location_of(cfg@, project@), "--combined"@, "-"@]
        + filter_args(cfg@, project@));
    v
}

/// A sync or bisync run: its output when rclone exited 0, else the output
/// and the exit code as the error.
pub fn sync_outcome(output: String, code: i32) -> (r: Result<String, String>)
    ensures
        code == 0 ==> (r matches Ok(s) && s@ == output@),
        code != 0 ==> (r matches Err(e) && e@ == output@ + "\nExited with code "@ + decimal(code as int)),
{
    if code == 0 {
        Ok(output)
    } else {
        let n = decimal_string(code as i64);
        proof {
            reveal_strlit("\nExited with code ");
        }
        Err(concat3(output.as_str(), "\nExited with code ", n.as_str()))
    }
}

// ---------------------------------------------------------------------------
// Remote folders.
/// The remote listed by Browse Remote: the one named (an unknown name uses
/// base path "proj"), else the active one.
pub fn listing_remote(cfg: &AppConfig, remote_name: Option<&str>) -> (r: RemoteConfig)
    ensures
        r@ == remote_named(cfg@.remotes, match remote_name {
            Some(n) => n@,
            None => cfg@.remote,
        }),
{
    match remote_name {
        Some(n) => cfg.get_remote(n),
        None => cfg.active_remote(),
    }
}

/// The last run of non-whitespace characters of `s`.
pub open spec fn trailing_word(s: Text) -> Text
    decreases s.len(),
{
    if s.len() == 0 || is_ws(s.last()) {
        Seq::empty()
    } else {
        trailing_word(s.drop_last()).push(s.last())
    }
}

/// `line.split_whitespace().last()`.
pub open spec fn last_word(line: Text) -> Option<Text> {
    let w = trailing_word(trim_end(line));
    if w.len() == 0 {
        None
    } else {
        Some(w)
    }
}

/// The folder names of `rclone lsd` output: the last word of each line that
/// has one.
pub open spec fn listed_names(ls: Seq<Text>) -> Seq<Text>
    decreases ls.len(),
{
    if ls.len() == 0 {
        Seq::empty()
    } else {
        match last_word(ls.last()) {
            Some(w) => listed_names(ls.drop_last()).push(w),
            None => listed_names(ls.drop_last()),
        }
    }
}

fn last_word_of(line: &Vec<char>) -> (r: Option<String>)
    ensures
        text_view(r) == last_word(line@),
{
    let mut end = line.len();
    while end > 0 && is_whitespace(line[end - 1])
        invariant
            end <= line.len(),
            trim_end(line@) == trim_end(line@.take(end as int)),
        decreases end,
    {
        proof {
            assert(line@.take(end as int).drop_last() =~= line@.take(end - 1));
            assert(line@.take(end as int).last() == line@[end - 1]);
        }
        end = end - 1;
    }
    let ghost t = line@.take(end as int);
    proof {
        if end > 0 {
            assert(t.last() == line@[end - 1]);
        } else {
            assert(t =~= Seq::<char>::empty());
        }
        assert(trim_end(t) == t);
    }
    let mut start = end;
    while start > 0 && !is_whitespace(line[start - 1])
        invariant
            start <= end,
            end <= line.len(),
            t == line@.take(end as int),
            trailing_word(t) == trailing_word(t.take(start as int)) + t.subrange(start as int, end as int),
        decreases start,
    {
        proof {
            let u = t.take(start as int);
            assert(u.drop_last() =~= t.take(start - 1));
            assert(t.subrange(start - 1, end as int) =~= seq![u.last()] + t.subrange(start as int, end as int));
        }
        start = start - 1;
    }
    proof {
        if start > 0 {
            assert(is_ws(t.take(start as int).last()));
        }
    }
    if start == end {
        return None;
    }
    let mut w: Vec<char> = Vec::new();
    let mut k = start;
    while k < end
        invariant
            start <= k <= end,
            end <= line.len(),
            w@ == line@.subrange(start as int, k as int),
        decreases end - k,
    {
        w.push(line[k]);
        k = k + 1;
        assert(w@ =~= line@.subrange(start as int, k as int));
    }
    assert(t.subrange(start as int, end as int) =~= line@.subrange(start as int, end as int));
    Some(string_from_chars(&w))
}

/// The folder names `rclone lsd` printed.
pub fn remote_dir_names(stdout: &str) -> (r: Vec<String>)
    ensures
        texts(r@) == listed_names(lines(stdout@)),
{
    let ls = split_lines(stdout);
    let ghost lv = ls@.map_values(|l: Vec<char>| l@);
    let mut out: Vec<String> = Vec::new();
    let mut i: usize = 0;
    while i < ls.len()
        invariant
            i <= ls.len(),
            lv == ls@.map_values(|l: Vec<char>| l@),
            lv == lines(stdout@),
            texts(out@) == listed_names(lv.take(i as int)),
        decreases ls.len() - i,
    {
        assert(lv.take(i + 1).drop_last() =~= lv.take(i as int));
        assert(lv.take(i + 1).last() == ls@[i as int]@);
        match last_word_of(&ls[i]) {
            Some(w) => {
                let ghost prev = texts(out@);
                let ghost wv = w@;
                out.push(w);
                assert(texts(out@) =~= prev.push(wv));
                assert(texts(out@) =~= listed_names(lv.take(i + 1)));
            },
            None => {},
        }
        i = i + 1;
    }
    assert(lv.take(ls.len() as int) =~= lv);
    out
}

/// A folder on the remote, as Browse Remote lists it.
#[derive(Debug, PartialEq, Eq)]
pub struct RemoteDir {
    pub name: String,
    pub has_local: bool,
    pub local_path: Option<String>,
    pub in_config: bool,
}

pub struct RemoteDirView {
    pub name: Text,
    pub has_local: bool,
    pub local_path: Option<Text>,
    pub in_config: bool,
}

impl View for RemoteDir {
    type V = RemoteDirView;

    open spec fn view(&self) -> RemoteDirView {
        RemoteDirView {
            name: self.name@,
            has_local: self.has_local,
            local_path: text_view(self.local_path),
            in_config: self.in_config,
        }
    }
}

/// The Browse Remote rows: each listed folder, with the local folder found
/// for its name (`local_paths`, in the same order) and whether a configured
/// project has that name.
pub fn remote_dirs(cfg: &AppConfig, names: &Vec<String>, local_paths: &Vec<Option<String>>) -> (r: Vec<RemoteDir>)
    requires
        local_paths@.len() == names@.len(),
    ensures
        r@.len() == names@.len(),
        forall|i: int| 0 <= i < r@.len() ==> (#[trigger] r@[i])@ == (RemoteDirView {
            name: names@[i]@,
            has_local: local_paths@[i] is Some,
            local_path: text_view(local_paths@[i]),
            in_config: cfg@.projects.map_values(|p: ProjectView| p.name).contains(names@[i]@),
        }),
{
    let mut out: Vec<RemoteDir> = Vec::new();
    let mut i: usize = 0;
    while i < names.len()
        invariant
            i <= names.len(),
            local_paths@.len() == names@.len(),
            out@.len() == i,
            forall|j: int| 0 <= j < i ==> (#[trigger] out@[j])@ == (RemoteDirView {
                name: names@[j]@,
                has_local: local_paths@[j] is Some,
                local_path: text_view(local_paths@[j]),
                in_config: cfg@.projects.map_values(|p: ProjectView| p.name).contains(names@[j]@),
            }),
        decreases names.len() - i,
    {
        let mut in_config = false;
        let mut k: usize = 0;
        while k < cfg.projects.len()
            invariant
                k <= cfg.projects.len(),
                i < names@.len(),
                in_config == cfg@.projects.take(k as int).map_values(|p: ProjectView| p.name).contains(names@[i as int]@),
            decreases cfg.projects.len() - k,
        {
            assert(cfg@.projects.take(k + 1).map_values(|p: ProjectView| p.name) =~= cfg@.projects.take(k as int).map_values(
                |p: ProjectView| p.name,
            ).push(cfg@.projects[k as int].name));
            if same_text(cfg.projects[k].name.as_str(), names[i].as_str()) {
                in_config = true;
            }
            k = k + 1;
        }
        assert(cfg@.projects.take(cfg.projects.len() as int) =~= cfg@.projects);
        let local_path = crate::model::clone_opt_string(&local_paths[i]);
        out.push(RemoteDir {
            name: names[i].clone(),
            has_local: local_paths[i].is_some(),
            local_path,
            in_config,
        });
        i = i + 1;
    }
    out
}

/// Whether a local folder "has content" for a pull into it: it exists and
/// holds an entry that is not an OS-generated file. `listing` holds the
/// entry names, `None` when the folder does not exist or cannot be read.
pub fn local_dir_has_content(listing: Option<&Vec<String>>) -> (r: bool)
    ensures
        listing is None ==> !r,
        listing is Some ==> (r <==> exists|i: int| 0 <= i < listing->0@.len() && !os_junk(#[trigger] listing->0@[i]@)),
{
    match listing {
        None => false,
        Some(names) => {
            let mut i: usize = 0;
            while i < names.len()
                invariant
                    i <= names.len(),
                    listing == Some(names),
                    forall|j: int| 0 <= j < i ==> os_junk(#[trigger] names@[j]@),
                decreases names.len() - i,
            {
                if !is_os_junk(names[i].as_str()) {
                    assert(!os_junk(listing->0@[i as int]@));
                    return true;
                }
                i = i + 1;
            }
            false
        },
    }
}

} // verus!
