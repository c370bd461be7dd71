use vstd::prelude::*;
use std::collections::VecDeque;

verus! {

/// The severity of a popup message.
#[derive(Clone, Copy, Debug, PartialEq, Eq)]
pub enum PadamoPopupMessageType {
    Info,
    Warning,
    Error,
}

impl PadamoPopupMessageType {
    /// The title shown above a message of this severity.
    pub fn title(&self) -> (r: &'static str)
        ensures
            r@ == (match *self {
                PadamoPopupMessageType::Info => "Info"@,
                PadamoPopupMessageType::Warning => "Warning"@,
                PadamoPopupMessageType::Error => "Error"@,
            }),
    {
        match self {
            PadamoPopupMessageType::Info => "Info",
            PadamoPopupMessageType::Warning => "Warning",
            PadamoPopupMessageType::Error => "Error",
        }
    }
}

/// A message shown to the user in a popup.
#[derive(Clone, Debug)]
pub struct PadamoPopupMessage {
    message_type: PadamoPopupMessageType,
    message: String,
}

impl View for PadamoPopupMessage {
    type V = (PadamoPopupMessageType, Seq<char>);

    closed spec fn view(&self) -> (PadamoPopupMessageType, Seq<char>) {
        (self.message_type, self.message@)
    }
}

impl PadamoPopupMessage {
    /// A message of the given severity and text.
    pub fn new(message_type: PadamoPopupMessageType, message: String) -> (r: Self)
        ensures
            r@ == (message_type, message@),
    {
        PadamoPopupMessage { message_type, message }
    }
}

/// The queue of popup messages waiting to be shown, oldest first.
pub struct MessageList {
    container: VecDeque<PadamoPopupMessage>,
}

impl View for MessageList {
    type V = Seq<(PadamoPopupMessageType, Seq<char>)>;

    closed spec fn view(&self) -> Seq<(PadamoPopupMessageType, Seq<char>)> {
        self.container@.map_values(|m: PadamoPopupMessage| m@)
    }
}

impl MessageList {
    /// An empty queue.
    pub fn new() -> (r: Self)
        ensures
            r@ == Seq::<(PadamoPopupMessageType, Seq<char>)>::empty(),
    {
        let r = MessageList { container: VecDeque::new() };
        assert(r@ =~= Seq::<(PadamoPopupMessageType, Seq<char>)>::empty());
        r
    }

    /// The message that has waited longest, if any.
    pub fn oldest_message(&self) -> (r: Option<&PadamoPopupMessage>)
        ensures
            self@.len() == 0 ==> r is None,
            self@.len() > 0 ==> (r matches Some(m) && m@ == self@[0]),
    {
        if self.container.len() > 0 {
            Some(&self.container[0])
        } else {
            None
        }
    }

    /// Queues a message of severity `level` behind the others.
    pub fn add_message(&mut self, msg: String, level: PadamoPopupMessageType)
        ensures
            final(self)@ == old(self)@.push((level, msg@)),
    {
        self.container.push_back(PadamoPopupMessage::new(level, msg));
        assert(self@ =~= old(self)@.push((level, msg@)));
    }

    /// Drops the message that has waited longest, if any.
    pub fn pop_oldest_message(&mut self)
        ensures
            old(self)@.len() == 0 ==> final(self)@ == old(self)@,
            old(self)@.len() > 0 ==> final(self)@ == old(self)@.drop_first(),
    {
        self.container.pop_front();
        assert(old(self)@.len() > 0 ==> self@ =~= old(self)@.drop_first());
    }
}

/// Messages leave the queue in the order they entered it: after adding a
/// message to a queue, the oldest message is the one that was oldest before,
/// or the added one if the queue was empty; dropping the oldest then leaves
/// the rest followed by the added one.
pub proof fn lemma_queue_order(q: Seq<(PadamoPopupMessageType, Seq<char>)>, m: (PadamoPopupMessageType, Seq<char>))
    ensures
        q.push(m)[0] == (if q.len() == 0 { m } else { q[0] }),
        q.len() > 0 ==> q.push(m).drop_first() == q.drop_first().push(m),
{
    if q.len() > 0 {
        assert(q.push(m).drop_first() =~= q.drop_first().push(m));
    }
}

} // verus!
