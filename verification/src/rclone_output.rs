//! Reading what rclone printed. Every answer that cannot be read becomes an
//! error: a verdict is only ever derived from itemized lines.
use crate::seqs::{first_index, lemma_first_index_is, lemma_first_index_none};
use crate::text::{
    char_vec, concat, decimal, decimal_chars, decimal_string, has_prefix, starts_with,
    string_from_chars, trim_start,
};
use vstd::prelude::*;

verus! {

// ---------------------------------------------------------------------------
// Lines, as `str::lines` splits them.
pub open spec fn strip_cr(line: Seq<char>) -> Seq<char> {
    if line.len() > 0 && line.last() == '\r' {
        line.drop_last()
    } else {
        line
    }
}

/// The completed lines of `s` and the unterminated rest.
pub open spec fn line_scan(s: Seq<char>) -> (Seq<Seq<char>>, Seq<char>)
    decreases s.len(),
{
    if s.len() == 0 {
        (Seq::empty(), Seq::empty())
    } else {
        let (done, cur) = line_scan(s.drop_last());
        if s.last() == '\n' {
            (done.push(strip_cr(cur)), Seq::empty())
        } else {
            (done, cur.push(s.last()))
        }
    }
}

/// `str::lines`: split at `\n` (dropping a `\r` just before it); a final line
/// ending is optional.
pub open spec fn lines(s: Seq<char>) -> Seq<Seq<char>> {
    let (done, cur) = line_scan(s);
    if cur.len() > 0 {
        done.push(cur)
    } else {
        done
    }
}

proof fn lemma_line_scan_len(s: Seq<char>)
    ensures
        line_scan(s).0.len() + (if line_scan(s).1.len() > 0 {
            1int
        } else {
            0
        }) <= s.len(),
        line_scan(s).1.len() <= s.len(),
    decreases s.len(),
{
    if s.len() > 0 {
        lemma_line_scan_len(s.drop_last());
    }
}

/// The lines of a string.
pub fn split_lines(s: &str) -> (r: Vec<Vec<char>>)
    ensures
        r@.map_values(|l: Vec<char>| l@) == lines(s@),
        r@.len() <= s@.len(),
{
    let v = char_vec(s);
    let mut done: Vec<Vec<char>> = Vec::new();
    let mut cur: Vec<char> = Vec::new();
    let mut i: usize = 0;
    while i < v.len()
        invariant
            v@ == s@,
            i <= v.len(),
            done@.map_values(|l: Vec<char>| l@) == line_scan(s@.take(i as int)).0,
            cur@ == line_scan(s@.take(i as int)).1,
        decreases v.len() - i,
    {
        assert(s@.take(i + 1).drop_last() =~= s@.take(i as int));
        let c = v[i];
        if c == '\n' {
            let mut line = cur;
            if line.len() > 0 && line[line.len() - 1] == '\r' {
                line.pop();
            }
            done.push(line);
            cur = Vec::new();
            assert(done@.map_values(|l: Vec<char>| l@) =~= line_scan(s@.take(i + 1)).0);
        } else {
            cur.push(c);
        }
        i = i + 1;
    }
    assert(s@.take(v.len() as int) =~= s@);
    proof {
        lemma_line_scan_len(s@);
    }
    if cur.len() > 0 {
        done.push(cur);
    }
    assert(done@.map_values(|l: Vec<char>| l@) =~= lines(s@));
    done
}

// ---------------------------------------------------------------------------
// `rclone check --combined` verdicts.
/// A check verdict, so that the frontend never infers sync state from
/// human-readable output.
#[derive(Debug, PartialEq, Eq)]
pub struct CheckOutcome {
    pub synced: bool,
    pub differences: u32,
    pub matches: u32,
    pub details: String,
}

/// The number of UTF-8 bytes of a character.
pub open spec fn char_bytes(c: char) -> int {
    let n = c as u32;
    if n < 0x80 {
        1
    } else if n < 0x800 {
        2
    } else if n < 0x10000 {
        3
    } else {
        4
    }
}

/// Fewer than two bytes: not an itemized line.
pub open spec fn is_short(l: Seq<char>) -> bool {
    l.len() == 0 || (l.len() == 1 && char_bytes(l[0]) == 1)
}

/// The two-byte marker of a line can be split off at a character boundary.
pub open spec fn splittable(l: Seq<char>) -> bool {
    is_short(l) || char_bytes(l[0]) == 2 || (char_bytes(l[0]) == 1 && l.len() >= 2 && char_bytes(
        l[1],
    ) == 1)
}

pub enum LineKind {
    Skip,
    Same,
    Changed,
    RemoteOnly,
    LocalOnly,
    Unreadable,
    Other,
}

pub open spec fn marked(l: Seq<char>, c: char) -> bool {
    l.len() >= 2 && l[0] == c && l[1] == ' '
}

pub open spec fn line_kind(l: Seq<char>) -> LineKind {
    if is_short(l) {
        LineKind::Skip
    } else if marked(l, '=') {
        LineKind::Same
    } else if marked(l, '*') {
        LineKind::Changed
    } else if marked(l, '+') {
        LineKind::RemoteOnly
    } else if marked(l, '-') {
        LineKind::LocalOnly
    } else if marked(l, '!') {
        LineKind::Unreadable
    } else {
        LineKind::Other
    }
}

pub open spec fn occurs_at(s: Seq<char>, pat: Seq<char>, i: int) -> bool {
    0 <= i && i + pat.len() <= s.len() && s.subrange(i, i + pat.len()) == pat
}

/// The first place at or after `from` where `pat` occurs.
pub open spec fn next_occurrence(s: Seq<char>, pat: Seq<char>, from: int) -> Option<int>
    decreases s.len() + 1 - from,
{
    if from < 0 || from + pat.len() > s.len() {
        None
    } else if occurs_at(s, pat, from) {
        Some(from)
    } else {
        next_occurrence(s, pat, from + 1)
    }
}

/// `line.split(pat).nth(1)`: the text between the first and second
/// occurrence of `pat`, or from the first occurrence to the end.
pub open spec fn second_piece(l: Seq<char>, pat: Seq<char>) -> Option<Seq<char>> {
    match next_occurrence(l, pat, 0) {
        None => None,
        Some(i) => {
            let st = i + pat.len();
            match next_occurrence(l, pat, st) {
                Some(j) => Some(l.subrange(st, j)),
                None => Some(l.subrange(st, l.len() as int)),
            }
        },
    }
}

pub open spec fn notice() -> Seq<char> {
    seq!['N', 'O', 'T', 'I', 'C', 'E', ':', ' ']
}

/// What one line adds to the details text.
pub open spec fn line_detail(l: Seq<char>) -> Seq<char> {
    let rest = l.subrange(2, l.len() as int);
    match line_kind(l) {
        LineKind::Changed => "[CHANGED] "@ + rest + seq!['\n'],
        LineKind::RemoteOnly => "[REMOTE ONLY] "@ + rest + seq!['\n'],
        LineKind::LocalOnly => "[LOCAL ONLY] "@ + rest + seq!['\n'],
        LineKind::Unreadable => "[UNREADABLE] "@ + rest + seq!['\n'],
        LineKind::Other => match second_piece(l, notice()) {
            Some(m) => m + seq!['\n'],
            None => Seq::empty(),
        },
        _ => Seq::empty(),
    }
}

pub open spec fn details_of(ls: Seq<Seq<char>>) -> Seq<char>
    decreases ls.len(),
{
    if ls.len() == 0 {
        Seq::empty()
    } else {
        details_of(ls.drop_last()) + line_detail(ls.last())
    }
}

pub open spec fn is_difference(k: LineKind) -> bool {
    k is Changed || k is RemoteOnly || k is LocalOnly
}

pub open spec fn count_same(ls: Seq<Seq<char>>) -> nat
    decreases ls.len(),
{
    if ls.len() == 0 {
        0
    } else {
        count_same(ls.drop_last()) + if line_kind(ls.last()) is Same {
            1nat
        } else {
            0
        }
    }
}

pub open spec fn count_differences(ls: Seq<Seq<char>>) -> nat
    decreases ls.len(),
{
    if ls.len() == 0 {
        0
    } else {
        count_differences(ls.drop_last()) + if is_difference(line_kind(ls.last())) {
            1nat
        } else {
            0
        }
    }
}

pub open spec fn count_unreadable(ls: Seq<Seq<char>>) -> nat
    decreases ls.len(),
{
    if ls.len() == 0 {
        0
    } else {
        count_unreadable(ls.drop_last()) + if line_kind(ls.last()) is Unreadable {
            1nat
        } else {
            0
        }
    }
}

proof fn lemma_counts_bounded(ls: Seq<Seq<char>>)
    ensures
        count_same(ls) + count_differences(ls) + count_unreadable(ls) <= ls.len(),
    decreases ls.len(),
{
    if ls.len() > 0 {
        lemma_counts_bounded(ls.drop_last());
    }
}

proof fn lemma_counts_prefix(ls: Seq<Seq<char>>, i: int)
    requires
        0 <= i <= ls.len(),
    ensures
        count_same(ls.take(i)) <= count_same(ls),
        count_differences(ls.take(i)) <= count_differences(ls),
        count_unreadable(ls.take(i)) <= count_unreadable(ls),
    decreases ls.len(),
{
    if i < ls.len() {
        assert(ls.drop_last().take(i) =~= ls.take(i));
        lemma_counts_prefix(ls.drop_last(), i);
    } else {
        assert(ls.take(i) =~= ls);
    }
}

/// The closing summary line of the details.
pub open spec fn summary(differences: nat, matches: nat) -> Seq<char> {
    if differences == 0 {
        "All "@ + decimal(matches as int) + " files match."@ + seq!['\n']
    } else {
        decimal(differences as int) + " differences, "@ + decimal(matches as int) + " matching."@
            + seq!['\n']
    }
}

pub open spec fn failed_exit_message(raw: Seq<char>, code: i32) -> Seq<char> {
    "rclone check failed (exit "@ + decimal(code as int) + "):"@ + seq!['\n'] + raw
}

pub open spec fn unreadable_message(n: nat, details: Seq<char>) -> Seq<char> {
    decimal(n as int) + " file(s) could not be compared, so the sync status is unknown:"@ + seq![
        '\n',
    ] + details
}

pub open spec fn no_itemized_message(raw: Seq<char>) -> Seq<char> {
    "rclone check reported a failure but listed no differences:"@ + seq!['\n'] + raw
}

/// The verdict for a check: an error message, or (differences, matches,
/// details).
pub open spec fn check_verdict(raw: Seq<char>, code: i32) -> Result<(nat, nat, Seq<char>), Seq<char>> {
    let ls = lines(raw);
    let d = count_differences(ls);
    let m = count_same(ls);
    let u = count_unreadable(ls);
    let det = details_of(ls);
    if code != 0 && code != 1 {
        Err(failed_exit_message(raw, code))
    } else if u > 0 {
        Err(unreadable_message(u, det))
    } else if code == 1 && d == 0 {
        Err(no_itemized_message(raw))
    } else {
        Ok((d, m, det + summary(d, m)))
    }
}

proof fn lemma_details_prefix(ls: Seq<Seq<char>>, i: int, j: int)
    requires
        0 <= i <= j <= ls.len(),
    ensures
        details_of(ls.take(i)).len() <= details_of(ls.take(j)).len(),
        details_of(ls.take(j)).subrange(0, details_of(ls.take(i)).len() as int) == details_of(ls.take(i)),
    decreases j - i,
{
    if i < j {
        lemma_details_prefix(ls, i, j - 1);
        assert(ls.take(j).drop_last() =~= ls.take(j - 1));
        let a = details_of(ls.take(i));
        let b = details_of(ls.take(j - 1));
        let c = details_of(ls.take(j));
        assert(c == b + line_detail(ls.take(j).last()));
        assert(c.subrange(0, a.len() as int) =~= b.subrange(0, a.len() as int));
    }
}

/// How each itemized line of `rclone check --combined` shows in the
/// details, read from its two-character marker: `- ` is a file only on the
/// local side, `+ ` one only on the remote, `* ` a changed file, `! ` one that
/// could not be compared, and `= ` (a match) adds nothing. The details of the
/// lines before it are kept as they were, and the details of the whole output
/// begin with those of every prefix of its lines.
pub proof fn law_check_details_label_each_marker(ls: Seq<Seq<char>>, i: int)
    requires
        0 <= i < ls.len(),
    ensures
        ({
            let l = ls[i];
            let before = details_of(ls.take(i));
            let after = details_of(ls.take(i + 1));
            let rest = l.subrange(2, l.len() as int);
            let nl = seq!['\n'];
            &&& l.len() >= 2 && l[0] == '-' && l[1] == ' ' ==> after == before + "[LOCAL ONLY] "@ + rest + nl
            &&& l.len() >= 2 && l[0] == '+' && l[1] == ' ' ==> after == before + "[REMOTE ONLY] "@ + rest + nl
            &&& l.len() >= 2 && l[0] == '*' && l[1] == ' ' ==> after == before + "[CHANGED] "@ + rest + nl
            &&& l.len() >= 2 && l[0] == '!' && l[1] == ' ' ==> after == before + "[UNREADABLE] "@ + rest + nl
            &&& l.len() >= 2 && l[0] == '=' && l[1] == ' ' ==> after == before
            &&& details_of(ls).subrange(0, after.len() as int) == after
        }),
{
    assert(ls.take(i + 1).drop_last() =~= ls.take(i));
    assert(ls.take(i + 1).last() == ls[i]);
    lemma_details_prefix(ls, i + 1, ls.len() as int);
    assert(ls.take(ls.len() as int) =~= ls);
}

/// The labels of a local-only and a remote-only file differ, so the details
/// never confuse the two sides.
pub proof fn law_local_only_and_remote_only_differ(rest: Seq<char>)
    ensures
        line_detail(seq!['-', ' '] + rest) != line_detail(seq!['+', ' '] + rest),
{
    let a = seq!['-', ' '] + rest;
    let b = seq!['+', ' '] + rest;
    assert(a[0] == '-' && a[1] == ' ');
    assert(b[0] == '+' && b[1] == ' ');
    reveal_strlit("[LOCAL ONLY] ");
    reveal_strlit("[REMOTE ONLY] ");
    let da = line_detail(a);
    let db = line_detail(b);
    assert(da[1] == 'L');
    assert(db[1] == 'R');
}

/// A failed check is never read as "synced": any exit code but 0 and 1 is an
/// error, and a verdict without differences comes only from a clean exit in
/// which every file could be compared.
pub proof fn law_failure_is_never_synced(raw: Seq<char>, code: i32)
    ensures
        code != 0 && code != 1 ==> check_verdict(raw, code) is Err,
        check_verdict(raw, code) matches Ok((d, m, det)) && d == 0 ==> code == 0 && count_unreadable(
            lines(raw),
        ) == 0,
{
}

fn append_chars(v: &mut Vec<char>, w: &Vec<char>)
    ensures
        final(v)@ == old(v)@ + w@,
{
    let mut i: usize = 0;
    while i < w.len()
        invariant
            i <= w.len(),
            v@ == old(v)@ + w@.take(i as int),
        decreases w.len() - i,
    {
        v.push(w[i]);
        i = i + 1;
        assert(v@ =~= old(v)@ + w@.take(i as int));
    }
    assert(w@.take(w.len() as int) =~= w@);
}

fn append_str(v: &mut Vec<char>, s: &str)
    ensures
        final(v)@ == old(v)@ + s@,
{
    let w = char_vec(s);
    append_chars(v, &w);
}

fn occurs_here(l: &Vec<char>, pat: &Vec<char>, i: usize) -> (r: bool)
    ensures
        r == occurs_at(l@, pat@, i as int),
{
    if i > l.len() || pat.len() > l.len() - i {
        return false;
    }
    let mut k: usize = 0;
    while k < pat.len()
        invariant
            i + pat.len() <= l.len(),
            k <= pat.len(),
            forall|j: int| 0 <= j < k ==> l@[i + j] == pat@[j],
        decreases pat.len() - k,
    {
        if l[i + k] != pat[k] {
            assert(l@.subrange(i as int, i + pat.len())[k as int] != pat@[k as int]);
            return false;
        }
        k = k + 1;
    }
    assert(l@.subrange(i as int, i + pat.len()) =~= pat@);
    true
}

proof fn lemma_next_occurrence_skip(s: Seq<char>, pat: Seq<char>, from: int, i: int)
    requires
        0 <= from <= i,
        i + pat.len() <= s.len() + 1,
        forall|j: int| from <= j < i ==> !#[trigger] occurs_at(s, pat, j),
    ensures
        next_occurrence(s, pat, from) == next_occurrence(s, pat, i),
    decreases i - from,
{
    if from < i {
        lemma_next_occurrence_skip(s, pat, from + 1, i);
    }
}

fn find_from(l: &Vec<char>, pat: &Vec<char>, from: usize) -> (r: Option<usize>)
    ensures
        opt_usize(r) == next_occurrence(l@, pat@, from as int),
        r matches Some(i) ==> from <= i && i + pat@.len() <= l@.len(),
{
    if from > l.len() || pat.len() > l.len() - from {
        return None;
    }
    let limit: usize = l.len() - pat.len();
    let mut i: usize = from;
    while i <= limit
        invariant
            from <= i <= limit + 1,
            limit == l.len() - pat.len(),
            from + pat.len() <= l.len(),
            forall|j: int| from <= j < i ==> !#[trigger] occurs_at(l@, pat@, j),
        decreases limit + 1 - i,
    {
        if occurs_here(l, pat, i) {
            proof {
                lemma_next_occurrence_skip(l@, pat@, from as int, i as int);
            }
            return Some(i);
        }
        if i == limit {
            proof {
                lemma_next_occurrence_skip(l@, pat@, from as int, i + 1);
            }
            return None;
        }
        i = i + 1;
    }
    proof {
        lemma_next_occurrence_skip(l@, pat@, from as int, i as int);
    }
    None
}

pub open spec fn opt_usize(o: Option<usize>) -> Option<int> {
    match o {
        Some(v) => Some(v as int),
        None => None,
    }
}

fn push_rest(details: &mut Vec<char>, label: &str, l: &Vec<char>)
    requires
        l.len() >= 2,
    ensures
        final(details)@ == old(details)@ + label@ + l@.subrange(2, l@.len() as int) + seq!['\n'],
{
    append_str(details, label);
    let mut i: usize = 2;
    while i < l.len()
        invariant
            2 <= i <= l.len(),
            details@ == old(details)@ + label@ + l@.subrange(2, i as int),
        decreases l.len() - i,
    {
        details.push(l[i]);
        i = i + 1;
        assert(details@ =~= old(details)@ + label@ + l@.subrange(2, i as int));
    }
    details.push('\n');
}

fn push_notice(details: &mut Vec<char>, l: &Vec<char>)
    ensures
        final(details)@ == old(details)@ + match second_piece(l@, notice()) {
            Some(m) => m + seq!['\n'],
            None => Seq::empty(),
        },
{
    let mut pat: Vec<char> = Vec::new();
    pat.push('N');
    pat.push('O');
    pat.push('T');
    pat.push('I');
    pat.push('C');
    pat.push('E');
    pat.push(':');
    pat.push(' ');
    assert(pat@ =~= notice());
    assert(pat@.len() == 8);
    match find_from(l, &pat, 0) {
        None => {
            assert(old(details)@ =~= old(details)@ + Seq::<char>::empty());
        },
        Some(i) => {
            assert(i + pat@.len() <= l@.len());
            assert(l@.len() == l.len());
            let st = i + pat.len();
            let end = match find_from(l, &pat, st) {
                Some(j) => j,
                None => l.len(),
            };
            let mut k: usize = st;
            while k < end
                invariant
                    st <= k <= end <= l.len(),
                    details@ == old(details)@ + l@.subrange(st as int, k as int),
                decreases end - k,
            {
                details.push(l[k]);
                k = k + 1;
                assert(details@ =~= old(details)@ + l@.subrange(st as int, k as int));
            }
            details.push('\n');
        },
    }
}

/// Whether every line can have its two-byte marker split off; the verdict is
/// defined for such output only.
pub open spec fn all_splittable(raw: Seq<char>) -> bool {
    forall|i: int| 0 <= i < lines(raw).len() ==> splittable(#[trigger] lines(raw)[i])
}

/// Each count of the verdict fits in 32 bits.
pub open spec fn counts_fit(raw: Seq<char>) -> bool {
    &&& count_differences(lines(raw)) <= u32::MAX
    &&& count_same(lines(raw)) <= u32::MAX
    &&& count_unreadable(lines(raw)) <= u32::MAX
}

/// Output whose verdict can be read: every marker splits off, and the
/// counts fit.
pub open spec fn check_output_readable(raw: Seq<char>) -> bool {
    all_splittable(raw) && counts_fit(raw)
}

fn splittable_line(l: &Vec<char>) -> (r: bool)
    ensures
        r == splittable(l@),
{
    if l.len() == 0 || (l.len() == 1 && (l[0] as u32) < 0x80) {
        return true;
    }
    let first = l[0] as u32;
    if 0x80 <= first && first < 0x800 {
        return true;
    }
    first < 0x80 && l.len() >= 2 && (l[1] as u32) < 0x80
}

/// Whether `parse_check_output` can read this output: every line's marker
/// splits off at a character boundary and each count fits in 32 bits.
pub fn check_output_is_readable(raw: &str) -> (r: bool)
    ensures
        r == check_output_readable(raw@),
{
    let ls = split_lines(raw);
    let ghost lv = ls@.map_values(|l: Vec<char>| l@);
    let mut ok = true;
    let mut differences: u64 = 0;
    let mut matches: u64 = 0;
    let mut unreadable: u64 = 0;
    let mut i: usize = 0;
    while i < ls.len()
        invariant
            i <= ls.len(),
            lv == ls@.map_values(|l: Vec<char>| l@),
            lv == lines(raw@),
            ok == forall|j: int| 0 <= j < i ==> splittable(#[trigger] lv[j]),
            differences == count_differences(lv.take(i as int)),
            matches == count_same(lv.take(i as int)),
            unreadable == count_unreadable(lv.take(i as int)),
        decreases ls.len() - i,
    {
        let ghost before = lv.take(i as int);
        assert(lv.take(i + 1).drop_last() =~= before);
        proof {
            lemma_counts_bounded(before);
        }
        let l = &ls[i];
        assert(l@ == lv[i as int]);
        if !splittable_line(l) {
            ok = false;
        }
        let short = l.len() == 0 || (l.len() == 1 && (l[0] as u32) < 0x80);
        if !short && l.len() >= 2 && l[1] == ' ' && l[0] == '=' {
            matches = matches + 1;
        } else if !short && l.len() >= 2 && l[1] == ' ' && (l[0] == '*' || l[0] == '+' || l[0]
            == '-') {
            differences = differences + 1;
        } else if !short && l.len() >= 2 && l[1] == ' ' && l[0] == '!' {
            unreadable = unreadable + 1;
        }
        i = i + 1;
    }
    assert(lv.take(ls.len() as int) =~= lv);
    ok && differences <= 0xffff_ffff && matches <= 0xffff_ffff && unreadable <= 0xffff_ffff
}

/// Turn `rclone check --combined` output into a verdict, or refuse to give one.
///
/// rclone check exits 0 for "all matched" and 1 for "differences found", but 1
/// is also its generic usage-error code, so exit status alone is not trusted.
pub fn parse_check_output(raw: &str, code: i32) -> (r: Result<CheckOutcome, String>)
    requires
        check_output_readable(raw@),
    ensures
        match (r, check_verdict(raw@, code)) {
            (Ok(o), Ok((d, m, det))) => o.differences == d && o.matches == m && o.details@ == det
                && o.synced == (d == 0),
            (Err(e), Err(msg)) => e@ == msg,
            _ => false,
        },
{
    if code != 0 && code != 1 {
        let mut msg: Vec<char> = Vec::new();
        append_str(&mut msg, "rclone check failed (exit ");
        let n = decimal_chars(code as i64);
        append_chars(&mut msg, &n);
        append_str(&mut msg, "):");
        msg.push('\n');
        append_str(&mut msg, raw);
        return Err(string_from_chars(&msg));
    }
    let ls = split_lines(raw);
    let ghost lv = ls@.map_values(|l: Vec<char>| l@);
    let mut details: Vec<char> = Vec::new();
    let mut differences: u32 = 0;
    let mut matches: u32 = 0;
    let mut unreadable: u32 = 0;
    let mut i: usize = 0;
    while i < ls.len()
        invariant
            i <= ls.len(),
            lv == ls@.map_values(|l: Vec<char>| l@),
            lv == lines(raw@),
            check_output_readable(raw@),
            details@ == details_of(lv.take(i as int)),
            differences == count_differences(lv.take(i as int)),
            matches == count_same(lv.take(i as int)),
            unreadable == count_unreadable(lv.take(i as int)),
        decreases ls.len() - i,
    {
        let ghost before = lv.take(i as int);
        assert(lv.take(i + 1).drop_last() =~= before);
        proof {
            lemma_counts_prefix(lv, i + 1);
            assert(lv.take(i + 1).last() == lv[i as int]);
        }
        let l = &ls[i];
        assert(l@ == lv[i as int]);
        assert(splittable(lv[i as int]));
        let short = l.len() == 0 || (l.len() == 1 && (l[0] as u32) < 0x80);
        if !short && l.len() >= 2 && l[1] == ' ' && l[0] == '=' {
            matches = matches + 1;
        } else if !short && l.len() >= 2 && l[1] == ' ' && l[0] == '*' {
            differences = differences + 1;
            push_rest(&mut details, "[CHANGED] ", l);
        } else if !short && l.len() >= 2 && l[1] == ' ' && l[0] == '+' {
            differences = differences + 1;
            push_rest(&mut details, "[REMOTE ONLY] ", l);
        } else if !short && l.len() >= 2 && l[1] == ' ' && l[0] == '-' {
            differences = differences + 1;
            push_rest(&mut details, "[LOCAL ONLY] ", l);
        } else if !short && l.len() >= 2 && l[1] == ' ' && l[0] == '!' {
            unreadable = unreadable + 1;
            push_rest(&mut details, "[UNREADABLE] ", l);
        } else if !short {
            push_notice(&mut details, l);
        }
        i = i + 1;
    }
    assert(lv.take(ls.len() as int) =~= lv);
    if unreadable > 0 {
        let mut msg: Vec<char> = Vec::new();
        let n = decimal_chars(unreadable as i64);
        append_chars(&mut msg, &n);
        append_str(&mut msg, " file(s) could not be compared, so the sync status is unknown:");
        msg.push('\n');
        append_chars(&mut msg, &details);
        return Err(string_from_chars(&msg));
    }
    if code == 1 && differences == 0 {
        let mut msg: Vec<char> = Vec::new();
        append_str(&mut msg, "rclone check reported a failure but listed no differences:");
        msg.push('\n');
        append_str(&mut msg, raw);
        return Err(string_from_chars(&msg));
    }
    if differences == 0 {
        append_str(&mut details, "All ");
        let n = decimal_chars(matches as i64);
        append_chars(&mut details, &n);
        append_str(&mut details, " files match.");
        details.push('\n');
    } else {
        let n = decimal_chars(differences as i64);
        append_chars(&mut details, &n);
        append_str(&mut details, " differences, ");
        let m = decimal_chars(matches as i64);
        append_chars(&mut details, &m);
        append_str(&mut details, " matching.");
        details.push('\n');
    }
    Ok(
        CheckOutcome {
            synced: differences == 0,
            differences,
            matches,
            details: string_from_chars(&details),
        },
    )
}

// ---------------------------------------------------------------------------
// `rclone size --json` output.
/// The integer member `key` of the JSON object `text`, when `text` parses as
/// JSON and that member is an integer that fits in an `i64`.
pub uninterp spec fn json_i64_member_of(text: Seq<char>, key: Seq<char>) -> Option<i64>;

/// Reads one integer member of a JSON document: `serde_json::from_str` into a
/// `serde_json::Value`, then `Value::get(key)` and `Value::as_i64`. The
/// result is named: it depends on the two texts alone.
#[verifier::external_body]
fn json_i64_member(text: &str, key: &str) -> (r: Option<i64>)
    ensures
        r == json_i64_member_of(text@, key@),
{
    serde_json::from_str::<serde_json::Value>(text).ok().and_then(
        |value| value.get(key).and_then(serde_json::Value::as_i64),
    )
}

pub open spec fn opens_object(l: Seq<char>) -> bool {
    trim_start(l).len() > 0 && trim_start(l)[0] == '{'
}

pub open spec fn json_line() -> spec_fn(Seq<char>) -> bool {
    |l: Seq<char>| opens_object(l)
}

/// The file count rclone reported: the `count` member of the first line that
/// opens a JSON object (notices may precede it).
pub open spec fn size_count(output: Seq<char>) -> Option<i64> {
    match first_index(lines(output), json_line()) {
        Some(i) => json_i64_member_of(lines(output)[i], "count"@),
        None => None,
    }
}

pub open spec fn size_count_message(output: Seq<char>) -> Seq<char> {
    "Could not read a file count from rclone size output:"@ + seq!['\n'] + output
}

fn opens_object_exec(l: &Vec<char>) -> (r: bool)
    ensures
        r == opens_object(l@),
{
    let mut i: usize = 0;
    assert(l@.subrange(0, l@.len() as int) =~= l@);
    while i < l.len() && crate::text::is_whitespace(l[i])
        invariant
            i <= l.len(),
            trim_start(l@) == trim_start(l@.subrange(i as int, l@.len() as int)),
        decreases l.len() - i,
    {
        let ghost t = l@.subrange(i as int, l@.len() as int);
        assert(t[0] == l@[i as int]);
        assert(t.drop_first() =~= l@.subrange(i + 1, l@.len() as int));
        i = i + 1;
    }
    let ghost t = l@.subrange(i as int, l@.len() as int);
    if i < l.len() {
        assert(t[0] == l@[i as int]);
        assert(trim_start(t) == t);
    }
    i < l.len() && l[i] == '{'
}

fn first_json_line(ls: &Vec<Vec<char>>) -> (r: Option<usize>)
    ensures
        match r {
            Some(k) => k < ls@.len() && crate::seqs::is_first(
                ls@.map_values(|l: Vec<char>| l@),
                json_line(),
                k as int,
            ),
            None => crate::seqs::none_match(ls@.map_values(|l: Vec<char>| l@), json_line()),
        },
{
    let ghost lv = ls@.map_values(|l: Vec<char>| l@);
    let mut i: usize = 0;
    while i < ls.len()
        invariant
            i <= ls.len(),
            lv == ls@.map_values(|l: Vec<char>| l@),
            forall|j: int| 0 <= j < i ==> !json_line()(#[trigger] lv[j]),
        decreases ls.len() - i,
    {
        if opens_object_exec(&ls[i]) {
            return Some(i);
        }
        i = i + 1;
    }
    None
}

/// Pull the file count out of `rclone size --json` output. Anything that
/// cannot be read is an error, never a zero and never an assumed count.
pub fn parse_rclone_size_count(output: &str) -> (r: Result<i64, String>)
    ensures
        match size_count(output@) {
            Some(n) => r == Ok::<i64, String>(n),
            None => r is Err && r->Err_0@ == size_count_message(output@),
        },
{
    let ls = split_lines(output);
    let ghost lv = ls@.map_values(|l: Vec<char>| l@);
    let found = first_json_line(&ls);
    let count = match found {
        Some(k) => {
            proof {
                lemma_first_index_is(lv, json_line(), k as int);
            }
            let line = string_from_chars(&ls[k]);
            json_i64_member(line.as_str(), "count")
        },
        None => {
            proof {
                lemma_first_index_none(lv, json_line());
            }
            None
        },
    };
    match count {
        Some(n) => Ok(n),
        None => {
            let mut msg: Vec<char> = Vec::new();
            append_str(&mut msg, "Could not read a file count from rclone size output:");
            msg.push('\n');
            append_str(&mut msg, output);
            Err(string_from_chars(&msg))
        },
    }
}

// ---------------------------------------------------------------------------
/// OS-generated files that do not make a directory "have content" when
/// deciding whether a pull would overwrite local files.
pub open spec fn os_junk(name: Seq<char>) -> bool {
    name == ".DS_Store"@ || name == "Thumbs.db"@ || name == "desktop.ini"@ || has_prefix(
        name,
        "._"@,
    )
}

pub fn is_os_junk(name: &str) -> (r: bool)
    ensures
        r == os_junk(name@),
{
    crate::text::same_text(name, ".DS_Store") || crate::text::same_text(name, "Thumbs.db")
        || crate::text::same_text(name, "desktop.ini") || starts_with(name, "._")
}

} // verus!
