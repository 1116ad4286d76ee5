//! The notice an instance shows after an upgrade that kept content with
//! warnings, and how launches wear it off.
use vstd::prelude::*;
use crate::model::InstanceUpgradeIssueCode;

verus! {

/// One warning of a post-upgrade notice.
#[derive(Debug)]
pub struct InstancePostUpgradeWarning {
    pub code: InstanceUpgradeIssueCode,
    pub content_id: Option<String>,
    pub relative_path: Option<String>,
}

/// The notice an instance keeps after an upgrade.
#[derive(Debug)]
pub struct InstancePostUpgradeNotice {
    pub instance_id: String,
    pub upgrade_job_id: String,
    pub target_game_version: String,
    pub consecutive_clean_launches: u8,
    pub warnings: Vec<InstancePostUpgradeWarning>,
}

/// A compatibility warning of an upgrade, as the installer reports it.
#[derive(Debug)]
pub struct InstanceUpgradeCompatibilityWarning {
    pub code: InstanceUpgradeIssueCode,
    pub content_id: Option<String>,
    pub relative_path: Option<String>,
}

pub open spec fn opt_view(o: Option<String>) -> Option<Seq<char>> {
    match o {
        Some(s) => Some(s@),
        None => None,
    }
}

/// The same notice but for its count of clean launches.
pub open spec fn same_but_count(a: InstancePostUpgradeNotice, b: InstancePostUpgradeNotice) -> bool {
    &&& a.instance_id == b.instance_id
    &&& a.upgrade_job_id == b.upgrade_job_id
    &&& a.target_game_version == b.target_game_version
    &&& a.warnings == b.warnings
}

/// The notice after a launch: a clean launch counts (saturating) and, at two
/// consecutive clean launches, retires the notice; a failed launch resets the
/// count.
pub fn next_post_upgrade_notice_after_launch(notice: InstancePostUpgradeNotice, clean: bool) -> (r: Option<
    InstancePostUpgradeNotice,
>)
    ensures
        match spec_next_count(notice.consecutive_clean_launches, clean) {
            Some(c) => r matches Some(n) && n.consecutive_clean_launches == c && same_but_count(n, notice),
            None => r is None,
        },
        clean && notice.consecutive_clean_launches >= 1 ==> r is None,
        clean && notice.consecutive_clean_launches == 0 ==> (r matches Some(n) && n.consecutive_clean_launches == 1
            && same_but_count(n, notice)),
        !clean ==> (r matches Some(n) && n.consecutive_clean_launches == 0 && same_but_count(n, notice)),
{
    let mut notice = notice;
    if clean {
        notice.consecutive_clean_launches = notice.consecutive_clean_launches.saturating_add(1);
        if notice.consecutive_clean_launches < 2 {
            Some(notice)
        } else {
            None
        }
    } else {
        notice.consecutive_clean_launches = 0;
        Some(notice)
    }
}

/// The count of clean launches as stored: the database integer clamped to
/// `0..=255`.
pub fn clean_launches_from_database(value: i64) -> (r: u8)
    ensures
        r == (if value < 0 { 0 } else if value > 255 { 255 } else { value }),
{
    if value < 0 {
        0
    } else if value > 255 {
        255
    } else {
        value as u8
    }
}

/// What storing a notice does.
#[derive(Debug, PartialEq, Eq, Structural)]
pub enum NoticeWrite {
    /// Remove the instance's notice: nothing is left to warn about.
    Delete,
    /// Insert or update the instance's notice.
    Upsert,
}

/// A notice with no warnings is deleted rather than stored.
pub fn notice_write(notice: &InstancePostUpgradeNotice) -> (r: NoticeWrite)
    ensures
        r == (if notice.warnings@.len() == 0 { NoticeWrite::Delete } else { NoticeWrite::Upsert }),
{
    if notice.warnings.len() == 0 {
        NoticeWrite::Delete
    } else {
        NoticeWrite::Upsert
    }
}

/// What a launch does to the stored notice.
#[derive(Debug)]
pub enum LaunchNoticeAction {
    /// There is no notice.
    Nothing,
    /// Store this notice in place of the old one.
    Replace(InstancePostUpgradeNotice),
    /// Remove the notice.
    Dismiss,
}

/// Records a launch against the stored notice, if there is one.
pub fn record_launch(stored: Option<InstancePostUpgradeNotice>, clean: bool) -> (r: LaunchNoticeAction)
    ensures
        stored is None ==> r is Nothing,
        stored matches Some(n) ==> (clean && n.consecutive_clean_launches >= 1 <==> r is Dismiss),
        stored matches Some(n) ==> (r matches LaunchNoticeAction::Replace(m) ==> same_but_count(m, n) && (
            m.consecutive_clean_launches == if clean { 1u8 } else { 0u8 })),
        stored is Some ==> !(r is Nothing),
{
    match stored {
        None => LaunchNoticeAction::Nothing,
        Some(n) => match next_post_upgrade_notice_after_launch(n, clean) {
            Some(m) => LaunchNoticeAction::Replace(m),
            None => LaunchNoticeAction::Dismiss,
        },
    }
}

/// Whether a compatibility warning is kept on the notice: it names content
/// or a file.
pub open spec fn spec_keeps_warning(w: InstanceUpgradeCompatibilityWarning) -> bool {
    w.content_id is Some || w.relative_path is Some
}

pub open spec fn spec_kept_warnings(details: Seq<InstanceUpgradeCompatibilityWarning>) -> Seq<
    InstanceUpgradeCompatibilityWarning,
> {
    details.filter(|w: InstanceUpgradeCompatibilityWarning| spec_keeps_warning(w))
}

fn copy_opt(o: &Option<String>) -> (r: Option<String>)
    ensures
        opt_view(r) == opt_view(*o),
{
    match o {
        Some(s) => Some(s.clone()),
        None => None,
    }
}

/// The warnings a notice keeps of an upgrade's compatibility warnings: those
/// that name content or a file, in order.
pub fn post_upgrade_warnings_from_details(details: &Vec<InstanceUpgradeCompatibilityWarning>) -> (r: Vec<
    InstancePostUpgradeWarning,
>)
    ensures
        r@.len() == spec_kept_warnings(details@).len(),
        forall|i: int|
            0 <= i < r@.len() ==> {
                let w = spec_kept_warnings(details@)[i];
                &&& (#[trigger] r@[i]).code == w.code
                &&& opt_view(r@[i].content_id) == opt_view(w.content_id)
                &&& opt_view(r@[i].relative_path) == opt_view(w.relative_path)
            },
{
    let ghost keep = |w: InstanceUpgradeCompatibilityWarning| spec_keeps_warning(w);
    let mut out: Vec<InstancePostUpgradeWarning> = Vec::new();
    let mut i: usize = 0;
    proof {
        assert(details@.subrange(0, 0).filter(keep) =~= Seq::<InstanceUpgradeCompatibilityWarning>::empty());
    }
    while i < details.len()
        invariant
            i <= details@.len(),
            keep == (|w: InstanceUpgradeCompatibilityWarning| spec_keeps_warning(w)),
            out@.len() == details@.subrange(0, i as int).filter(keep).len(),
            forall|k: int|
                0 <= k < out@.len() ==> {
                    let w = details@.subrange(0, i as int).filter(keep)[k];
                    &&& (#[trigger] out@[k]).code == w.code
                    &&& opt_view(out@[k].content_id) == opt_view(w.content_id)
                    &&& opt_view(out@[k].relative_path) == opt_view(w.relative_path)
                },
        decreases details@.len() - i,
    {
        proof {
            assert(details@.subrange(0, i + 1).drop_last() =~= details@.subrange(0, i as int));
            assert(details@.subrange(0, i + 1).last() == details@[i as int]);
            reveal(Seq::filter);
        }
        let w = &details[i];
        if w.content_id.is_some() || w.relative_path.is_some() {
            out.push(
                InstancePostUpgradeWarning {
                    code: w.code,
                    content_id: copy_opt(&w.content_id),
                    relative_path: copy_opt(&w.relative_path),
                },
            );
        }
        i += 1;
    }
    assert(details@.subrange(0, details@.len() as int) =~= details@);
    out
}

/// A notice's count of clean launches after a launch; none where the
/// notice retires.
pub open spec fn spec_next_count(count: u8, clean: bool) -> Option<u8> {
    if clean {
        if count >= 1 {
            None
        } else {
            Some(1)
        }
    } else {
        Some(0)
    }
}

/// Whatever its count, a notice survives a failed launch with the count
/// reset, and then retires after exactly two consecutive clean launches.
pub proof fn notice_retires_after_two_clean_launches(count: u8)
    ensures
        spec_next_count(count, false) == Some(0u8),
        spec_next_count(0, true) == Some(1u8),
        spec_next_count(1, true) is None,
{
}

} // verus!
