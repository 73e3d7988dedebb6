//! What a helper tells about its setup before it becomes the target.
//!
//! The helper writes one message per line and closes its end of the channel.
//! A channel that ends after `Ready` alone shows that the target has replaced
//! the helper.
use vstd::prelude::*;
use vstd::string::StrSliceExecFns;
use vstd::string::StringExecFns;
use vstd::utf8::{decode_utf8, valid_utf8};

use super::error::LaunchFailureStage;
use crate::path::{append_bytes, utf8, utf8_error_text};
use crate::text::{decimal, group_views, lines, lines_of, views};

verus! {

/// The most that a helper may send.
pub const MAX_ACKNOWLEDGEMENT_BYTES: usize = 16_384;

/// Why a helper did not come to the target.
#[derive(Debug, PartialEq, Eq)]
pub struct AcknowledgementFailure {
    pub stage: LaunchFailureStage,
    pub reason: String,
}

/// A failure by its contents.
pub struct AckFailureView {
    pub stage: LaunchFailureStage,
    pub reason: Seq<char>,
}

impl View for AcknowledgementFailure {
    type V = AckFailureView;

    open spec fn view(&self) -> AckFailureView {
        AckFailureView { stage: self.stage, reason: self.reason@ }
    }
}

/// One message of a helper.
#[derive(Debug, PartialEq, Eq)]
pub enum AcknowledgementMessage {
    Ready,
    Failure { stage: LaunchFailureStage, reason: String },
}

/// A line of a helper: a message, or what the decoder says of it.
#[derive(Debug, PartialEq, Eq)]
pub enum AcknowledgementLine {
    Message(AcknowledgementMessage),
    Invalid(String),
}

pub open spec fn protocol_failure(reason: Seq<char>) -> AckFailureView {
    AckFailureView { stage: LaunchFailureStage::Acknowledgement, reason }
}

fn protocol_error(reason: String) -> (out: AcknowledgementFailure)
    ensures
        out@ == protocol_failure(reason@),
{
    AcknowledgementFailure { stage: LaunchFailureStage::Acknowledgement, reason }
}

pub open spec fn is_written() -> spec_fn(Seq<char>) -> bool {
    |line: Seq<char>| line.len() > 0
}

/// The lines that a helper wrote, without the empty ones.
pub open spec fn written_lines(bytes: Seq<u8>) -> Result<Seq<Seq<char>>, AckFailureView> {
    if valid_utf8(bytes) {
        Ok(lines(decode_utf8(bytes)).filter(is_written()))
    } else {
        Err(
            protocol_failure(
                "helper acknowledgement was not UTF-8: "@ + utf8_error_text(bytes),
            ),
        )
    }
}

/// The lines that a helper wrote, without the empty ones.
pub fn acknowledgement_lines(bytes: &Vec<u8>) -> (out: Result<Vec<String>, AcknowledgementFailure>)
    ensures
        match written_lines(bytes@) {
            Ok(all) => out matches Ok(found) && views(found@) == all,
            Err(e) => out matches Err(error) && error@ == e,
        },
{
    broadcast use group_views;

    let text = match utf8(bytes) {
        Ok(text) => text,
        Err(message) => {
            return Err(
                protocol_error(
                    "helper acknowledgement was not UTF-8: ".to_owned().concat(message.as_str()),
                ),
            );
        },
    };
    let read = lines_of(text.as_str());
    let ghost all = views(read@);
    let ghost keep = is_written();
    let mut out: Vec<String> = Vec::new();
    let mut i: usize = 0;
    proof {
        reveal(Seq::filter);
        assert(all.take(0).filter(keep) =~= Seq::empty());
    }
    while i < read.len()
        invariant
            i <= read@.len(),
            all == views(read@),
            keep == is_written(),
            views(out@) == all.take(i as int).filter(keep),
        decreases read.len() - i,
    {
        proof {
            assert(all.take(i + 1) =~= all.take(i as int).push(read@[i as int]@));
            all.take(i as int).lemma_filter_push(read@[i as int]@, keep);
        }
        if read[i].as_str().unicode_len() > 0 {
            out.push(read[i].clone());
        }
        i += 1;
    }
    assert(all.take(all.len() as int) =~= all);
    Ok(out)
}

/// What the lines of a helper come to: whether it was ready, or why it did
/// not come to the target.
pub open spec fn heard(read: Seq<AcknowledgementLine>) -> Result<bool, AckFailureView>
    decreases read.len(),
{
    if read.len() == 0 {
        Ok(false)
    } else {
        match heard(read.drop_last()) {
            Err(e) => Err(e),
            Ok(ready) => match read.last() {
                AcknowledgementLine::Invalid(message) => Err(
                    protocol_failure("invalid helper acknowledgement: "@ + message@),
                ),
                AcknowledgementLine::Message(AcknowledgementMessage::Ready) => if ready {
                    Err(protocol_failure("helper sent more than one ready message"@))
                } else {
                    Ok(true)
                },
                AcknowledgementLine::Message(AcknowledgementMessage::Failure { stage, reason }) => {
                    Err(AckFailureView { stage, reason: reason@ })
                },
            },
        }
    }
}

/// What a channel that has ended says: nothing is wrong, or why the helper did
/// not come to the target.
pub open spec fn acknowledgement(read: Seq<AcknowledgementLine>) -> Option<AckFailureView> {
    match heard(read) {
        Err(e) => Some(e),
        Ok(true) => None,
        Ok(false) => Some(
            protocol_failure("helper closed acknowledgement channel before setup completed"@),
        ),
    }
}

/// An acknowledgement by its outcome.
pub open spec fn ack_failure(out: Result<(), AcknowledgementFailure>) -> Option<AckFailureView> {
    match out {
        Ok(_) => None,
        Err(e) => Some(e@),
    }
}

proof fn lemma_heard_error(read: Seq<AcknowledgementLine>, k: int)
    requires
        0 <= k <= read.len(),
        heard(read.take(k)) is Err,
    ensures
        heard(read) == heard(read.take(k)),
    decreases read.len(),
{
    if k < read.len() {
        assert(read.drop_last().take(k) =~= read.take(k));
        lemma_heard_error(read.drop_last(), k);
    } else {
        assert(read.take(k) =~= read);
    }
}

/// What a channel that has ended says.
pub fn interpret_acknowledgement(read: &Vec<AcknowledgementLine>) -> (out: Result<
    (),
    AcknowledgementFailure,
>)
    ensures
        ack_failure(out) == acknowledgement(read@),
{
    let mut ready = false;
    let mut i: usize = 0;
    assert(read@.take(0) =~= Seq::empty());
    while i < read.len()
        invariant
            i <= read@.len(),
            heard(read@.take(i as int)) == Ok::<bool, AckFailureView>(ready),
        decreases read.len() - i,
    {
        proof {
            assert(read@.take(i + 1).drop_last() =~= read@.take(i as int));
            assert(read@.take(i + 1).last() == read@[i as int]);
            if heard(read@.take(i + 1)) is Err {
                lemma_heard_error(read@, i + 1);
            }
        }
        match &read[i] {
            AcknowledgementLine::Invalid(message) => {
                return Err(
                    protocol_error(
                        "invalid helper acknowledgement: ".to_owned().concat(message.as_str()),
                    ),
                );
            },
            AcknowledgementLine::Message(AcknowledgementMessage::Ready) => {
                if ready {
                    return Err(
                        protocol_error("helper sent more than one ready message".to_owned()),
                    );
                }
                ready = true;
            },
            AcknowledgementLine::Message(AcknowledgementMessage::Failure { stage, reason }) => {
                return Err(AcknowledgementFailure { stage: *stage, reason: reason.clone() });
            },
        }
        i += 1;
    }
    assert(read@.take(read@.len() as int) =~= read@);
    if ready {
        Ok(())
    } else {
        Err(
            protocol_error(
                "helper closed acknowledgement channel before setup completed".to_owned(),
            ),
        )
    }
}

/// What came of reading from the channel. A failure comes with the system's
/// message.
#[derive(Debug, PartialEq, Eq)]
pub enum ReadEvent {
    /// The channel has ended.
    End,
    Data(Vec<u8>),
    Interrupted,
    /// There is nothing to read yet.
    WouldBlock { expired: bool },
    Failed(String),
}

/// What the reader of a channel does next.
#[derive(Debug, PartialEq, Eq)]
pub enum ReadVerdict {
    /// Read on.
    Read,
    /// Wait for a moment and read on.
    Wait,
    /// Everything was read.
    Complete,
    Rejected(AcknowledgementFailure),
}

/// A verdict by its contents.
pub enum ReadVerdictView {
    Read,
    Wait,
    Complete,
    Rejected(AckFailureView),
}

impl View for ReadVerdict {
    type V = ReadVerdictView;

    open spec fn view(&self) -> ReadVerdictView {
        match self {
            ReadVerdict::Read => ReadVerdictView::Read,
            ReadVerdict::Wait => ReadVerdictView::Wait,
            ReadVerdict::Complete => ReadVerdictView::Complete,
            ReadVerdict::Rejected(e) => ReadVerdictView::Rejected(e@),
        }
    }
}

/// What was read so far, after an event.
pub open spec fn bytes_after(bytes: Seq<u8>, event: ReadEvent) -> Seq<u8> {
    match event {
        ReadEvent::Data(more) => bytes + more@,
        _ => bytes,
    }
}

/// What the reader of a channel does after an event.
pub open spec fn read_verdict(bytes: Seq<u8>, event: ReadEvent, timeout_ms: u128) -> ReadVerdictView {
    match event {
        ReadEvent::End => ReadVerdictView::Complete,
        ReadEvent::Data(more) => if bytes.len() + more@.len() > MAX_ACKNOWLEDGEMENT_BYTES {
            ReadVerdictView::Rejected(
                protocol_failure("helper acknowledgement exceeded the protocol size limit"@),
            )
        } else {
            ReadVerdictView::Read
        },
        ReadEvent::Interrupted => ReadVerdictView::Read,
        ReadEvent::WouldBlock { expired } => if expired {
            ReadVerdictView::Rejected(
                protocol_failure(
                    "helper did not acknowledge exec within "@ + decimal(timeout_ms as nat)
                        + " ms"@,
                ),
            )
        } else {
            ReadVerdictView::Wait
        },
        ReadEvent::Failed(source) => ReadVerdictView::Rejected(
            protocol_failure("failed to read helper acknowledgement: "@ + source@),
        ),
    }
}

/// The reader of a helper's channel.
#[derive(Debug, PartialEq, Eq)]
pub struct AcknowledgementReader {
    /// What was read so far.
    pub bytes: Vec<u8>,
    /// How long the reader waits, in milliseconds.
    pub timeout_ms: u128,
}

impl AcknowledgementReader {
    /// A reader that has read nothing.
    pub fn new(timeout_ms: u128) -> (out: Self)
        ensures
            out.bytes@ == Seq::<u8>::empty(),
            out.timeout_ms == timeout_ms,
    {
        AcknowledgementReader { bytes: Vec::new(), timeout_ms }
    }

    /// What to do after an event.
    pub fn step(&mut self, event: ReadEvent) -> (out: ReadVerdict)
        ensures
            final(self).bytes@ == bytes_after(old(self).bytes@, event),
            final(self).timeout_ms == old(self).timeout_ms,
            out@ == read_verdict(old(self).bytes@, event, old(self).timeout_ms),
    {
        match event {
            ReadEvent::End => ReadVerdict::Complete,
            ReadEvent::Data(more) => {
                append_bytes(&mut self.bytes, more.as_slice());
                if self.bytes.len() > MAX_ACKNOWLEDGEMENT_BYTES {
                    ReadVerdict::Rejected(
                        protocol_error(
                            "helper acknowledgement exceeded the protocol size limit".to_owned(),
                        ),
                    )
                } else {
                    ReadVerdict::Read
                }
            },
            ReadEvent::Interrupted => ReadVerdict::Read,
            ReadEvent::WouldBlock { expired } => {
                if expired {
                    ReadVerdict::Rejected(
                        protocol_error(
                            "helper did not acknowledge exec within ".to_owned().concat(
                                crate::text::decimal_text_wide(self.timeout_ms).as_str(),
                            ).concat(" ms"),
                        ),
                    )
                } else {
                    ReadVerdict::Wait
                }
            },
            ReadEvent::Failed(source) => ReadVerdict::Rejected(
                protocol_error(
                    "failed to read helper acknowledgement: ".to_owned().concat(source.as_str()),
                ),
            ),
        }
    }
}

/// The failure of a channel whose deadline is beyond the clock.
pub fn unrepresentable_timeout() -> (out: AcknowledgementFailure)
    ensures
        out@ == protocol_failure("helper acknowledgement timeout cannot be represented safely"@),
{
    protocol_error("helper acknowledgement timeout cannot be represented safely".to_owned())
}

/// A launch counts as done only where the helper said `Ready` once and nothing
/// else.
pub proof fn only_ready_is_success(read: Seq<AcknowledgementLine>)
    ensures
        acknowledgement(read) is None <==> (read.len() == 1 && read[0]
            == AcknowledgementLine::Message(AcknowledgementMessage::Ready)),
{
    lemma_heard_ready(read);
    if read.len() == 1 && read[0] == AcknowledgementLine::Message(AcknowledgementMessage::Ready) {
        assert(read.drop_last() =~= Seq::empty());
        assert(heard(read.drop_last()) == Ok::<bool, AckFailureView>(false));
    }
}

/// A failure that a helper sends is the failure that is heard, whether the
/// helper had said before that it was ready or not.
pub proof fn sent_failure_is_heard(stage: LaunchFailureStage, reason: String)
    ensures
        ({
            let ready = AcknowledgementLine::Message(AcknowledgementMessage::Ready);
            let failure = AcknowledgementLine::Message(
                AcknowledgementMessage::Failure { stage, reason },
            );
            let told = Some(AckFailureView { stage, reason: reason@ });
            &&& acknowledgement(seq![failure]) == told
            &&& acknowledgement(seq![ready, failure]) == told
        }),
{
    let ready = AcknowledgementLine::Message(AcknowledgementMessage::Ready);
    let failure = AcknowledgementLine::Message(AcknowledgementMessage::Failure { stage, reason });
    assert(seq![failure].drop_last() =~= Seq::empty());
    assert(seq![ready, failure].drop_last() =~= seq![ready]);
    assert(seq![ready].drop_last() =~= Seq::empty());
    assert(heard(Seq::empty()) == Ok::<bool, AckFailureView>(false));
    assert(heard(seq![ready]) == Ok::<bool, AckFailureView>(true));
}

proof fn lemma_heard_ready(read: Seq<AcknowledgementLine>)
    ensures
        heard(read) == Ok::<bool, AckFailureView>(false) ==> read.len() == 0,
        heard(read) == Ok::<bool, AckFailureView>(true) ==> read.len() == 1 && read[0]
            == AcknowledgementLine::Message(AcknowledgementMessage::Ready),
    decreases read.len(),
{
    if read.len() > 0 {
        lemma_heard_ready(read.drop_last());
    }
}

} // verus!
