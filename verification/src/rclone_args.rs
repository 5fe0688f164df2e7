//! The filter and performance arguments handed to rclone.
use crate::filters::{transfers_message, transfers_ok, validate_rclone_transfers};
use crate::model::{texts, AppConfig, Project, Text};
use crate::text::{decimal, decimal_string, is_blank, trim};
use vstd::prelude::*;

verus! {

/// `--exclude PATTERN` for every pattern, in order.
pub open spec fn exclude_args(patterns: Seq<Text>) -> Seq<Text>
    decreases patterns.len(),
{
    if patterns.len() == 0 {
        Seq::empty()
    } else {
        exclude_args(patterns.drop_last()) + seq!["--exclude"@, patterns.last()]
    }
}

/// The per-project patterns that are not blank rows, in order.
pub open spec fn non_blank(patterns: Seq<Text>) -> Seq<Text>
    decreases patterns.len(),
{
    if patterns.len() == 0 {
        Seq::empty()
    } else if trim(patterns.last()).len() == 0 {
        non_blank(patterns.drop_last())
    } else {
        non_blank(patterns.drop_last()).push(patterns.last())
    }
}

/// `--transfers N`, or nothing when the setting is Automatic.
pub open spec fn transfer_args(value: Option<i32>) -> Seq<Text> {
    match value {
        None => Seq::empty(),
        Some(n) => seq!["--transfers"@, decimal(n as int)],
    }
}

fn push_exclude(out: &mut Vec<String>, pattern: &String)
    ensures
        texts(final(out)@) == texts(old(out)@) + seq!["--exclude"@, pattern@],
{
    out.push(String::from_str("--exclude"));
    out.push(pattern.clone());
    assert(texts(final(out)@) =~= texts(old(out)@) + seq!["--exclude"@, pattern@]);
}

/// The global excludes as rclone arguments.
pub fn build_exclude_args(cfg: &AppConfig) -> (r: Vec<String>)
    ensures
        texts(r@) == exclude_args(cfg@.excludes),
{
    let mut out: Vec<String> = Vec::new();
    let mut i: usize = 0;
    while i < cfg.excludes.len()
        invariant
            i <= cfg.excludes.len(),
            texts(out@) == exclude_args(texts(cfg.excludes@).take(i as int)),
        decreases cfg.excludes.len() - i,
    {
        assert(texts(cfg.excludes@).take(i + 1).drop_last() =~= texts(cfg.excludes@).take(
            i as int,
        ));
        push_exclude(&mut out, &cfg.excludes[i]);
        i = i + 1;
    }
    assert(texts(cfg.excludes@).take(cfg.excludes.len() as int) =~= texts(cfg.excludes@));
    out
}

/// Per-project excludes as rclone arguments, applied in addition to the
/// global ones and only for this project's operations. Blank rows are not
/// filters.
pub fn project_exclude_args(project: &Project) -> (r: Vec<String>)
    ensures
        texts(r@) == exclude_args(non_blank(project@.excludes)),
{
    let mut out: Vec<String> = Vec::new();
    let mut i: usize = 0;
    while i < project.excludes.len()
        invariant
            i <= project.excludes.len(),
            texts(out@) == exclude_args(non_blank(texts(project.excludes@).take(i as int))),
        decreases project.excludes.len() - i,
    {
        let ghost before = texts(project.excludes@).take(i as int);
        assert(texts(project.excludes@).take(i + 1).drop_last() =~= before);
        if !is_blank(project.excludes[i].as_str()) {
            push_exclude(&mut out, &project.excludes[i]);
            assert(non_blank(texts(project.excludes@).take(i + 1)) == non_blank(before).push(
                project.excludes@[i as int]@,
            ));
            assert(non_blank(before).push(project.excludes@[i as int]@).drop_last() =~= non_blank(
                before,
            ));
            assert(exclude_args(non_blank(before).push(project.excludes@[i as int]@)) =~= exclude_args(
                non_blank(before),
            ) + seq!["--exclude"@, project.excludes@[i as int]@]);
        }
        i = i + 1;
    }
    assert(texts(project.excludes@).take(project.excludes.len() as int) =~= texts(
        project.excludes@,
    ));
    out
}

/// `--transfers N`, or nothing at all when the setting is Automatic. A value
/// out of range is refused, never clamped or passed through.
pub fn build_transfer_args(cfg: &AppConfig) -> (r: Result<Vec<String>, String>)
    ensures
        r is Ok <==> transfers_ok(cfg.rclone_transfers),
        r matches Ok(v) ==> texts(v@) == transfer_args(cfg.rclone_transfers),
        r matches Err(e) ==> e@ == transfers_message(cfg.rclone_transfers->0),
{
    validate_rclone_transfers(cfg.rclone_transfers)?;
    let mut v: Vec<String> = Vec::new();
    match cfg.rclone_transfers {
        None => {},
        Some(n) => {
            v.push(String::from_str("--transfers"));
            v.push(decimal_string(n as i64));
        },
    }
    assert(texts(v@) =~= transfer_args(cfg.rclone_transfers));
    Ok(v)
}

} // verus!
