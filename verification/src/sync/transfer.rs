//! A transfer up to its plan: where the session with the box stands, and what
//! is written to.

use crate::error::{self, Error, Refusal};
use crate::ordered::TextMap;
use crate::path;
use crate::sync::digest::DigestPair;
use crate::sync::entry::{RootStatus, SyncDirection, SyncRules, Tree, TreeView};
use crate::sync::names::{self, HostNames, HostNamesView};
use crate::sync::plan::{self, PlanAction, PlanOptions, build_plan};
use crate::sync::scan::HostKind;
use crate::sync::security::{self, validate_root_kind};
use crate::sync::session::{
    self, check_download_source, check_upload_source, place_download, place_upload,
};
use crate::text::{self, same_text};
use vstd::prelude::*;

verus! {

/// What the box answered to a session being begun.
#[derive(Debug)]
pub enum SessionReply {
    Ready(RootStatus),
    /// Something else, as it shows.
    Other(String),
    Failed(Error),
}

#[verifier::ext_equal]
pub enum ReplyView {
    Ready(RootStatus),
    Other(Seq<char>),
    Failed(Refusal),
}

impl View for SessionReply {
    type V = ReplyView;

    open spec fn view(&self) -> ReplyView {
        match self {
            SessionReply::Ready(status) => ReplyView::Ready(*status),
            SessionReply::Other(got) => ReplyView::Other(got@),
            SessionReply::Failed(error) => ReplyView::Failed(error@),
        }
    }
}

/// What a transfer asks for.
#[derive(Debug)]
pub enum TransferStep {
    /// To begin a session with the box at a path.
    Begin(String),
    /// To see what stands at a path of the host.
    Look(String),
    /// To read both trees: what is written lies at `root`, and the box said
    /// what stands where its session is.
    Scan { root: String, status: RootStatus },
    /// Nothing: the transfer was refused.
    Nothing,
}

#[verifier::ext_equal]
pub enum TransferStepView {
    Begin(Seq<char>),
    Look(Seq<char>),
    Scan { root: Seq<char>, status: RootStatus },
    Nothing,
}

impl View for TransferStep {
    type V = TransferStepView;

    open spec fn view(&self) -> TransferStepView {
        match self {
            TransferStep::Begin(root) => TransferStepView::Begin(root@),
            TransferStep::Look(path) => TransferStepView::Look(path@),
            TransferStep::Scan { root, status } => TransferStepView::Scan {
                root: root@,
                status: *status,
            },
            TransferStep::Nothing => TransferStepView::Nothing,
        }
    }
}

fn refuse_reply(what: &str, got: &str) -> (error: Error)
    ensures
        error@ == error::refusal(what@ + got@),
{
    let mut message: String = what.to_owned();
    message.append(got);
    Error::new(message)
}

/// How far an upload has come.
#[derive(Debug)]
enum UploadStage {
    /// The box is asked about the destination.
    Asking,
    /// The box is asked about the place inside it.
    Rooting(String),
    Placed(String, RootStatus),
    Refused(Error),
}

#[verifier::ext_equal]
pub enum UploadStageView {
    Asking,
    Rooting(Seq<char>),
    Placed(Seq<char>, RootStatus),
    Refused(Refusal),
}

impl View for UploadStage {
    type V = UploadStageView;

    closed spec fn view(&self) -> UploadStageView {
        match self {
            UploadStage::Asking => UploadStageView::Asking,
            UploadStage::Rooting(root) => UploadStageView::Rooting(root@),
            UploadStage::Placed(root, status) => UploadStageView::Placed(root@, *status),
            UploadStage::Refused(error) => UploadStageView::Refused(error@),
        }
    }
}

/// A transfer from the host into a box.
#[derive(Debug)]
pub struct Upload {
    src: String,
    is_dir: bool,
    src_trailing: bool,
    dst: String,
    dst_trailing: bool,
    stage: UploadStage,
}

#[verifier::ext_equal]
pub struct UploadView {
    pub src: Seq<char>,
    pub is_dir: bool,
    pub src_trailing: bool,
    pub dst: Seq<char>,
    pub dst_trailing: bool,
    pub stage: UploadStageView,
}

impl View for Upload {
    type V = UploadView;

    closed spec fn view(&self) -> UploadView {
        UploadView {
            src: self.src@,
            is_dir: self.is_dir,
            src_trailing: self.src_trailing,
            dst: self.dst@,
            dst_trailing: self.dst_trailing,
            stage: self.stage@,
        }
    }
}

/// What an upload asks for.
pub open spec fn upload_step(upload: UploadView) -> TransferStepView {
    match upload.stage {
        UploadStageView::Asking => TransferStepView::Begin(upload.dst),
        UploadStageView::Rooting(root) => TransferStepView::Begin(root),
        UploadStageView::Placed(root, status) => TransferStepView::Scan { root, status },
        UploadStageView::Refused(_) => TransferStepView::Nothing,
    }
}

/// Where an upload comes to with what the box answered: a session is begun
/// anew where the place to write is not the destination itself.
pub open spec fn upload_after(upload: UploadView, reply: ReplyView) -> UploadView {
    let stage = match (upload.stage, reply) {
        (UploadStageView::Asking, ReplyView::Ready(status)) => match session::upload_root(
            upload.src,
            upload.is_dir,
            upload.src_trailing,
            upload.dst,
            upload.dst_trailing,
            status,
        ) {
            Err(refused) => UploadStageView::Refused(refused),
            Ok(root) => if root == upload.dst {
                UploadStageView::Placed(root, status)
            } else {
                UploadStageView::Rooting(root)
            },
        },
        (UploadStageView::Rooting(root), ReplyView::Ready(status)) => UploadStageView::Placed(
            root,
            status,
        ),
        (UploadStageView::Asking, ReplyView::Other(got)) => UploadStageView::Refused(
            error::refusal("expected SessionReady, got "@ + got),
        ),
        (UploadStageView::Rooting(_), ReplyView::Other(got)) => UploadStageView::Refused(
            error::refusal("expected SessionReady on re-root, got "@ + got),
        ),
        (UploadStageView::Asking, ReplyView::Failed(refused)) => UploadStageView::Refused(refused),
        (UploadStageView::Rooting(_), ReplyView::Failed(refused)) => UploadStageView::Refused(
            refused,
        ),
        (stage, _) => stage,
    };
    UploadView { stage, ..upload }
}

impl Upload {
    /// Begins to copy a host path into a box; `kind` says what stands there.
    pub fn start(
        src: &str,
        kind: Option<HostKind>,
        src_trailing: bool,
        dst: &str,
        dst_trailing: bool,
        is_delete: bool,
    ) -> (started: Result<Upload, Error>)
        ensures
            match started {
                Ok(upload) => session::upload_source(src@, kind, src_trailing, is_delete) is Ok
                    && upload@ == (UploadView {
                    src: src@,
                    is_dir: kind == Some(HostKind::Directory),
                    src_trailing,
                    dst: dst@,
                    dst_trailing,
                    stage: UploadStageView::Asking,
                }),
                Err(error) => session::upload_source(src@, kind, src_trailing, is_delete) == Err::<
                    (),
                    _,
                >(error@),
            },
    {
        if let Err(error) = check_upload_source(src, kind, src_trailing, is_delete) {
            return Err(error);
        }
        let is_dir = match kind {
            Some(kind) => kind == HostKind::Directory,
            None => false,
        };
        Ok(
            Upload {
                src: src.to_owned(),
                is_dir,
                src_trailing,
                dst: dst.to_owned(),
                dst_trailing,
                stage: UploadStage::Asking,
            },
        )
    }

    /// What has to be done now.
    pub fn next(&self) -> (step: TransferStep)
        ensures
            step@ == upload_step(self@),
    {
        match &self.stage {
            UploadStage::Asking => TransferStep::Begin(self.dst.as_str().to_owned()),
            UploadStage::Rooting(root) => TransferStep::Begin(root.as_str().to_owned()),
            UploadStage::Placed(root, status) => TransferStep::Scan {
                root: root.as_str().to_owned(),
                status: *status,
            },
            UploadStage::Refused(_) => TransferStep::Nothing,
        }
    }

    /// Takes in what the box answered.
    pub fn advance(self, reply: SessionReply) -> (upload: Upload)
        ensures
            upload@ == upload_after(self@, reply@),
    {
        let stage = match (self.stage, reply) {
            (UploadStage::Asking, SessionReply::Ready(status)) => match place_upload(
                self.src.as_str(),
                self.is_dir,
                self.src_trailing,
                self.dst.as_str(),
                self.dst_trailing,
                status,
            ) {
                Err(error) => UploadStage::Refused(error),
                Ok(root) => if same_text(root.as_str(), self.dst.as_str()) {
                    UploadStage::Placed(root, status)
                } else {
                    UploadStage::Rooting(root)
                },
            },
            (UploadStage::Rooting(root), SessionReply::Ready(status)) => UploadStage::Placed(
                root,
                status,
            ),
            (UploadStage::Asking, SessionReply::Other(got)) => UploadStage::Refused(
                refuse_reply("expected SessionReady, got ", got.as_str()),
            ),
            (UploadStage::Rooting(_), SessionReply::Other(got)) => UploadStage::Refused(
                refuse_reply("expected SessionReady on re-root, got ", got.as_str()),
            ),
            (UploadStage::Asking, SessionReply::Failed(error)) => UploadStage::Refused(error),
            (UploadStage::Rooting(_), SessionReply::Failed(error)) => UploadStage::Refused(error),
            (stage, _) => stage,
        };
        Upload {
            src: self.src,
            is_dir: self.is_dir,
            src_trailing: self.src_trailing,
            dst: self.dst,
            dst_trailing: self.dst_trailing,
            stage,
        }
    }

    /// Why the transfer was refused, if it was.
    pub fn into_refusal(self) -> (refused: Option<Error>)
        ensures
            match self@.stage {
                UploadStageView::Refused(refusal) => refused is Some && refused->0@ == refusal,
                _ => refused is None,
            },
    {
        match self.stage {
            UploadStage::Refused(error) => Some(error),
            _ => None,
        }
    }
}

/// How far a download has come.
#[derive(Debug)]
enum DownloadStage {
    /// The box is asked about the source.
    Asking,
    /// The host is asked about the destination.
    Looking(RootStatus),
    Placed(String, RootStatus),
    Refused(Error),
}

#[verifier::ext_equal]
pub enum DownloadStageView {
    Asking,
    Looking(RootStatus),
    Placed(Seq<char>, RootStatus),
    Refused(Refusal),
}

impl View for DownloadStage {
    type V = DownloadStageView;

    closed spec fn view(&self) -> DownloadStageView {
        match self {
            DownloadStage::Asking => DownloadStageView::Asking,
            DownloadStage::Looking(status) => DownloadStageView::Looking(*status),
            DownloadStage::Placed(root, status) => DownloadStageView::Placed(root@, *status),
            DownloadStage::Refused(error) => DownloadStageView::Refused(error@),
        }
    }
}

/// A transfer out of a box to the host.
#[derive(Debug)]
pub struct Download {
    src: String,
    src_trailing: bool,
    dst: String,
    dst_trailing: bool,
    is_delete: bool,
    stage: DownloadStage,
}

#[verifier::ext_equal]
pub struct DownloadView {
    pub src: Seq<char>,
    pub src_trailing: bool,
    pub dst: Seq<char>,
    pub dst_trailing: bool,
    pub is_delete: bool,
    pub stage: DownloadStageView,
}

impl View for Download {
    type V = DownloadView;

    closed spec fn view(&self) -> DownloadView {
        DownloadView {
            src: self.src@,
            src_trailing: self.src_trailing,
            dst: self.dst@,
            dst_trailing: self.dst_trailing,
            is_delete: self.is_delete,
            stage: self.stage@,
        }
    }
}

/// What a download is told.
#[derive(Debug)]
pub enum DownloadEvent {
    Answered(SessionReply),
    /// Whether a directory stands at the destination; `None` where nothing
    /// does.
    Found(Option<bool>),
    Failed(Error),
}

#[verifier::ext_equal]
pub enum DownloadEventView {
    Answered(ReplyView),
    Found(Option<bool>),
    Failed(Refusal),
}

impl View for DownloadEvent {
    type V = DownloadEventView;

    open spec fn view(&self) -> DownloadEventView {
        match self {
            DownloadEvent::Answered(reply) => DownloadEventView::Answered(reply@),
            DownloadEvent::Found(is_dir) => DownloadEventView::Found(*is_dir),
            DownloadEvent::Failed(error) => DownloadEventView::Failed(error@),
        }
    }
}

/// What a download asks for.
pub open spec fn download_step(download: DownloadView) -> TransferStepView {
    match download.stage {
        DownloadStageView::Asking => TransferStepView::Begin(download.src),
        DownloadStageView::Looking(_) => TransferStepView::Look(download.dst),
        DownloadStageView::Placed(root, status) => TransferStepView::Scan { root, status },
        DownloadStageView::Refused(_) => TransferStepView::Nothing,
    }
}

/// Where a download comes to with what it is told.
pub open spec fn download_after(download: DownloadView, event: DownloadEventView) -> DownloadView {
    let stage = match (download.stage, event) {
        (
            DownloadStageView::Asking,
            DownloadEventView::Answered(ReplyView::Ready(status)),
        ) => match session::download_source(
            download.src,
            status,
            download.src_trailing,
            download.is_delete,
        ) {
            Err(refused) => DownloadStageView::Refused(refused),
            Ok(_) => DownloadStageView::Looking(status),
        },
        (
            DownloadStageView::Asking,
            DownloadEventView::Answered(ReplyView::Other(got)),
        ) => DownloadStageView::Refused(error::refusal("expected SessionReady, got "@ + got)),
        (
            DownloadStageView::Asking,
            DownloadEventView::Answered(ReplyView::Failed(refused)),
        ) => DownloadStageView::Refused(refused),
        (
            DownloadStageView::Looking(status),
            DownloadEventView::Found(is_dir),
        ) => match session::download_root(
            download.src,
            status,
            download.src_trailing,
            download.dst,
            download.dst_trailing,
            is_dir,
        ) {
            Err(refused) => DownloadStageView::Refused(refused),
            Ok(root) => DownloadStageView::Placed(root, status),
        },
        (
            DownloadStageView::Looking(_),
            DownloadEventView::Failed(refused),
        ) => DownloadStageView::Refused(refused),
        (stage, _) => stage,
    };
    DownloadView { stage, ..download }
}

impl Download {
    /// Begins to copy a path of a box to the host.
    pub fn start(src: &str, src_trailing: bool, dst: &str, dst_trailing: bool, is_delete: bool) -> (
        download: Download)
        ensures
            download@ == (DownloadView {
                src: src@,
                src_trailing,
                dst: dst@,
                dst_trailing,
                is_delete,
                stage: DownloadStageView::Asking,
            }),
    {
        Download {
            src: src.to_owned(),
            src_trailing,
            dst: dst.to_owned(),
            dst_trailing,
            is_delete,
            stage: DownloadStage::Asking,
        }
    }

    /// What has to be done now.
    pub fn next(&self) -> (step: TransferStep)
        ensures
            step@ == download_step(self@),
    {
        match &self.stage {
            DownloadStage::Asking => TransferStep::Begin(self.src.as_str().to_owned()),
            DownloadStage::Looking(_) => TransferStep::Look(self.dst.as_str().to_owned()),
            DownloadStage::Placed(root, status) => TransferStep::Scan {
                root: root.as_str().to_owned(),
                status: *status,
            },
            DownloadStage::Refused(_) => TransferStep::Nothing,
        }
    }

    /// Takes in what it is told.
    pub fn advance(self, event: DownloadEvent) -> (download: Download)
        ensures
            download@ == download_after(self@, event@),
    {
        let stage = match (self.stage, event) {
            (
                DownloadStage::Asking,
                DownloadEvent::Answered(SessionReply::Ready(status)),
            ) => match check_download_source(
                self.src.as_str(),
                status,
                self.src_trailing,
                self.is_delete,
            ) {
                Err(error) => DownloadStage::Refused(error),
                Ok(()) => DownloadStage::Looking(status),
            },
            (
                DownloadStage::Asking,
                DownloadEvent::Answered(SessionReply::Other(got)),
            ) => DownloadStage::Refused(refuse_reply("expected SessionReady, got ", got.as_str())),
            (
                DownloadStage::Asking,
                DownloadEvent::Answered(SessionReply::Failed(error)),
            ) => DownloadStage::Refused(error),
            (DownloadStage::Looking(status), DownloadEvent::Found(is_dir)) => match place_download(
                self.src.as_str(),
                status,
                self.src_trailing,
                self.dst.as_str(),
                self.dst_trailing,
                is_dir,
            ) {
                Err(error) => DownloadStage::Refused(error),
                Ok(root) => DownloadStage::Placed(root, status),
            },
            (DownloadStage::Looking(_), DownloadEvent::Failed(error)) => DownloadStage::Refused(
                error,
            ),
            (stage, _) => stage,
        };
        Download {
            src: self.src,
            src_trailing: self.src_trailing,
            dst: self.dst,
            dst_trailing: self.dst_trailing,
            is_delete: self.is_delete,
            stage,
        }
    }

    /// Why the transfer was refused, if it was.
    pub fn into_refusal(self) -> (refused: Option<Error>)
        ensures
            match self@.stage {
                DownloadStageView::Refused(refusal) => refused is Some && refused->0@ == refusal,
                _ => refused is None,
            },
    {
        match self.stage {
            DownloadStage::Refused(error) => Some(error),
            _ => None,
        }
    }
}

/// What is held against two trees that were read: the tree of the box must
/// have the root it was said to have, and the two must go together.
pub open spec fn transfer_verdict(
    source: TreeView,
    target: TreeView,
    status: RootStatus,
    direction: SyncDirection,
    names: Result<HostNamesView, Refusal>,
    rules: SyncRules,
) -> Result<(), Refusal> {
    let of_the_box = if direction == SyncDirection::HostToGuest {
        target
    } else {
        source
    };
    match security::root_kind(of_the_box, status) {
        Err(refused) => Err(refused),
        Ok(_) => plan::plan_verdict(source, target, direction, names, rules),
    }
}

/// Plans a transfer once both trees were read; `status` is what the box said
/// of where its session stands.
pub fn plan_transfer(
    source: &Tree,
    target: &Tree,
    status: RootStatus,
    options: PlanOptions,
    digests: &TextMap<DigestPair>,
    names: Result<HostNames, Error>,
    rules: &SyncRules,
) -> (planned: Result<Vec<PlanAction>, Error>)
    ensures
        ({
            let verdict = transfer_verdict(
                source@,
                target@,
                status,
                options.direction,
                names::tried(names),
                *rules,
            );
            match planned {
                Ok(actions) => verdict is Ok && text::views(actions@) == plan::plan(
                    source@,
                    target@,
                    options,
                    digests@,
                    rules.host,
                ),
                Err(error) => verdict == Err::<(), _>(error@),
            }
        }),
{
    let verdict = if options.direction == SyncDirection::HostToGuest {
        validate_root_kind(target, status)
    } else {
        validate_root_kind(source, status)
    };
    if let Err(error) = verdict {
        return Err(error);
    }
    build_plan(source, target, options, digests, names, rules)
}

/// An upload writes only where the box was last asked to look: the place and
/// what stands there are those of one and the same session.
pub proof fn uploads_write_where_the_box_looked(upload: UploadView, reply: ReplyView)
    requires
        !(upload.stage is Placed),
    ensures
        upload_after(upload, reply).stage matches UploadStageView::Placed(root, status) ==> upload_step(
            upload,
        ) == TransferStepView::Begin(root) && reply == ReplyView::Ready(status),
{
}

/// A transfer that was placed or refused stays so, whatever else is said.
pub proof fn transfers_are_settled_once(
    upload: UploadView,
    reply: ReplyView,
    download: DownloadView,
    event: DownloadEventView,
)
    ensures
        upload.stage is Placed || upload.stage is Refused ==> upload_after(upload, reply) == upload,
        download.stage is Placed || download.stage is Refused ==> download_after(download, event)
            == download,
{
}

/// A link of the box never takes the place of the destination itself, and
/// nothing takes that of a file that was spelled as a directory.
pub proof fn downloads_keep_the_destination(download: DownloadView, event: DownloadEventView)
    requires
        download.stage is Looking,
        download_after(download, event).stage is Placed,
    ensures
        ({
            let root = download_after(download, event).stage->Placed_0;
            let status = download.stage->Looking_0;
            &&& status == RootStatus::ExistingSymlink ==> !path::equivalent(root, download.dst)
            &&& download.dst_trailing ==> event != DownloadEventView::Found(Some(false))
        }),
{
}

} // verus!
