use vstd::prelude::*;

verus! {

/// Mathematical model of one log record: its four fields as character
/// sequences.
pub ghost struct EntryModel {
    pub timestamp: Seq<char>,
    pub service: Seq<char>,
    pub level: Seq<char>,
    pub message: Seq<char>,
}

/// One immutable log record. `timestamp` is an RFC 3339 wall-clock string and
/// is non-empty once the record is at rest in the store; `service`, `level`
/// and `message` are free-form.
pub struct Entry {
    pub timestamp: String,
    pub service: String,
    pub level: String,
    pub message: String,
}

impl View for Entry {
    type V = EntryModel;

    open spec fn view(&self) -> EntryModel {
        EntryModel {
            timestamp: self.timestamp@,
            service: self.service@,
            level: self.level@,
            message: self.message@,
        }
    }
}

impl DeepView for Entry {
    type V = EntryModel;

    open spec fn deep_view(&self) -> EntryModel {
        self.view()
    }
}

impl Entry {
    pub fn new(timestamp: String, service: String, level: String, message: String) -> (r: Entry)
        ensures
            r@ == (EntryModel {
                timestamp: timestamp@,
                service: service@,
                level: level@,
                message: message@,
            }),
    {
        Entry { timestamp, service, level, message }
    }
}

impl Clone for Entry {
    fn clone(&self) -> (r: Entry)
        ensures
            r@ == self@,
    {
        Entry {
            timestamp: self.timestamp.clone(),
            service: self.service.clone(),
            level: self.level.clone(),
            message: self.message.clone(),
        }
    }
}

} // verus!
