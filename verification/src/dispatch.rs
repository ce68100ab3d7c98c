//! The command dispatcher: a capability interface over the log buffer
//! that receives named commands (`report`, `add`, `clear`) and, on a
//! report, pushes a serialized snapshot onto an outbound channel.

use vstd::prelude::*;

use crate::buffer::{spec_append, EntryView, LogBuffer, MAX_LOGS};
use crate::codec::{serialize_report, spec_serialize, Report};
use crate::render::{single_line, spec_render, texts_of, MAX_RENDERABLE_TS};
use crate::strutil::str_eq;

verus! {

#[verifier::external_type_specification]
#[verifier::external_body]
#[verifier::reject_recursive_types(T)]
pub struct ExSender<T>(crossbeam_channel::Sender<T>);

/// Relies on `Sender::clone`: the clone is a sender end of the same
/// channel.  The channel itself is opaque here, so nothing is claimed.
#[verifier::external_body]
fn clone_sender(tx: &crossbeam_channel::Sender<String>) -> crossbeam_channel::Sender<String> {
    tx.clone()
}

/// Relies on `Sender::try_send`: it never blocks, and it fails exactly
/// when the channel is full or every receiver is gone, handing the
/// message back.  Whether either holds depends on the host, so nothing
/// is claimed of the result; the report is best-effort.
#[verifier::external_body]
fn send_on_channel(tx: &crossbeam_channel::Sender<String>, msg: String) -> (r: bool) {
    tx.try_send(msg).is_ok()
}

/// The topic under which a report of this component travels.
pub open spec fn spec_topic(instance: Seq<char>) -> Seq<char> {
    "tln/"@ + instance + "/logs"@
}

/// Builds the report topic for the given instance name.
pub fn make_topic(instance: &str) -> (r: String)
    ensures
        r@ == spec_topic(instance@),
{
    let mut t = String::from_str("tln/");
    t.append(instance);
    t.append("/logs");
    t
}

/// The transport command that embeds a serialized report.
pub open spec fn spec_report_command(json: Seq<char>) -> Seq<char> {
    "send plugin mqtt report '"@ + json + "'"@
}

/// Builds the transport command around a serialized report.
pub fn make_report_command(json: &str) -> (r: String)
    ensures
        r@ == spec_report_command(json@),
{
    let mut m = String::from_str("send plugin mqtt report '");
    m.append(json);
    m.append("'");
    m
}

/// The dispatcher: owns the log buffer and a sender end of the
/// outbound channel.
pub struct Plugin {
    tx: crossbeam_channel::Sender<String>,
    logs: LogBuffer,
    outbox: Ghost<Seq<Seq<char>>>,
    last_send: Option<bool>,
}

impl View for Plugin {
    type V = Seq<EntryView>;

    closed spec fn view(&self) -> Seq<EntryView> {
        self.logs@
    }
}

impl Plugin {
    /// The dispatcher's invariant: the buffer respects its capacity
    /// and every stored timestamp can be rendered.
    pub open spec fn inv(&self) -> bool {
        &&& self@.len() <= MAX_LOGS
        &&& forall|k: int| 0 <= k < self@.len() ==> self@[k].ts <= MAX_RENDERABLE_TS
    }

    /// The messages handed to the outbound channel so far, oldest
    /// first.  The handoff itself is the channel's business; this
    /// history records what was handed over, and in what order.
    pub closed spec fn sent_history(&self) -> Seq<Seq<char>> {
        self.outbox@
    }

    /// Whether the latest report handoff reached the channel: `None`
    /// before any report was attempted.
    pub closed spec fn spec_last_send(&self) -> Option<bool> {
        self.last_send
    }

    /// Creates a dispatcher with an empty buffer, bound to a clone of
    /// the given sender end.
    pub fn new(tx: &crossbeam_channel::Sender<String>) -> (r: Plugin)
        ensures
            r.inv(),
            r@ == Seq::<EntryView>::empty(),
            r.sent_history() == Seq::<Seq<char>>::empty(),
            r.spec_last_send() is None,
    {
        Plugin {
            tx: clone_sender(tx),
            logs: LogBuffer::new(),
            outbox: Ghost(Seq::empty()),
            last_send: None,
        }
    }

    /// Reads whether the latest report handoff reached the channel.
    /// The loss of a report never touches the buffer; this read-only
    /// outcome lets the host log it and continue.
    pub fn last_send_ok(&self) -> (r: Option<bool>)
        ensures
            r == self.spec_last_send(),
    {
        self.last_send
    }

    /// Number of entries currently buffered.
    pub fn len(&self) -> (r: usize)
        ensures
            r == self@.len(),
    {
        self.logs.len()
    }

    /// The component's fixed identifier.
    pub fn name(&self) -> (r: &str)
        ensures
            r@ == "logs"@,
    {
        "logs"
    }

    /// Renders the buffer's listing.  A pure read: the result is the
    /// listing of the buffer's texts in order, each line carrying some
    /// local-time string for the entry's timestamp.
    pub fn status(&self) -> (r: String)
        requires
            self.inv(),
        ensures
            exists|times: Seq<Seq<char>>|
                times.len() == self@.len() && (forall|k: int|
                    0 <= k < times.len() ==> single_line(#[trigger] times[k])) && r@
                    == spec_render(texts_of(self@), times),
    {
        self.logs.render()
    }

    /// The command-dispatch entry point.  `now`, `plaintext` and
    /// `instance` stand in for the host's collaborators: the current
    /// time in epoch seconds, the decrypted form of `data`, and the
    /// instance name for the report topic.  Always returns the fixed
    /// acknowledgement token.
    pub fn dispatch(
        &mut self,
        action: &str,
        data: &str,
        now: u64,
        plaintext: &str,
        instance: &str,
    ) -> (r: String)
        requires
            old(self).inv(),
            action@ == "add"@ ==> now <= MAX_RENDERABLE_TS,
        ensures
            final(self).inv(),
            r@ == "send"@,
            action@ == "add"@ ==> final(self)@ == spec_append(
                old(self)@,
                EntryView { ts: now, text: plaintext@ },
            ),
            action@ == "clear"@ ==> final(self)@ == Seq::<EntryView>::empty(),
            action@ != "add"@ && action@ != "clear"@ ==> final(self)@ == old(self)@,
            action@ == "report"@ && data@ == "myself"@ ==> exists|times: Seq<Seq<char>>|
                times.len() == old(self)@.len() && (forall|k: int|
                    0 <= k < times.len() ==> single_line(#[trigger] times[k]))
                    && final(self).sent_history() == old(self).sent_history().push(
                    spec_report_command(
                        spec_serialize(
                            spec_topic(instance@),
                            spec_render(texts_of(old(self)@), times),
                        ),
                    ),
                ),
            action@ == "report"@ && data@ == "myself"@ ==> final(self).spec_last_send()
                is Some,
            action@ != "report"@ || data@ != "myself"@ ==> final(self).sent_history() == old(
                self,
            ).sent_history() && final(self).spec_last_send() == old(self).spec_last_send(),
    {
        proof {
            reveal_strlit("report");
            reveal_strlit("add");
            reveal_strlit("clear");
            assert("report"@.len() == 6);
            assert("add"@.len() == 3);
            assert("clear"@.len() == 5);
            assert("report"@ != "add"@);
            assert("report"@ != "clear"@);
            assert("add"@ != "clear"@);
        }
        if str_eq(action, "report") {
            if str_eq(data, "myself") {
                let topic = make_topic(instance);
                let payload = self.status();
                let ghost times = choose|t: Seq<Seq<char>>|
                    t.len() == self@.len() && (forall|k: int|
                        0 <= k < t.len() ==> single_line(#[trigger] t[k])) && payload@
                        == spec_render(texts_of(self@), t);
                let report = Report { topic, payload };
                let json = serialize_report(&report);
                let msg = make_report_command(json.as_str());
                let ghost m = msg@;
                let delivered = send_on_channel(&self.tx, msg);
                self.last_send = Some(delivered);
                proof {
                    self.outbox@ = self.outbox@.push(m);
                    assert(m == spec_report_command(
                        spec_serialize(
                            spec_topic(instance@),
                            spec_render(texts_of(old(self)@), times),
                        ),
                    ));
                }
            }
        } else if str_eq(action, "add") {
            self.logs.append(plaintext.to_owned(), now);
        } else if str_eq(action, "clear") {
            self.logs.clear();
        }
        "send".to_owned()
    }

    /// The lifecycle hook for imminent teardown: mutates nothing and
    /// returns its fixed token.
    pub fn unload(&self) -> (r: String)
        ensures
            r@ == "unload"@,
    {
        "unload".to_owned()
    }
}

} // verus!
