use vstd::prelude::*;

verus! {

/// Flag set on a datum whose content is a completed (non-streaming-partial)
/// input.
pub const FLAG_IS_FINAL: &'static str = "is_final";

/// Flag set on a datum whose content carries data URLs.
pub const DATA_URLS: &'static str = "data_urls";

/// Mathematical model of one entry of the event log.
#[verifier::ext_equal]
pub struct DatumModel {
    pub channel: Seq<char>,
    pub content: Seq<char>,
    pub flags: Seq<Seq<char>>,
    pub id: u64,
    pub datetime: u64,
}

/// The draft model stamped with its log id and creation time.
pub open spec fn stamped_model(d: DatumModel, id: u64, now: u64) -> DatumModel {
    DatumModel { id: id, datetime: now, ..d }
}

/// The model with its content replaced.
pub open spec fn content_set_model(d: DatumModel, content: Seq<char>) -> DatumModel {
    DatumModel { content: content, ..d }
}

/// The two entries agree on everything but possibly the content.
pub open spec fn same_but_content(a: DatumModel, b: DatumModel) -> bool {
    &&& a.id == b.id
    &&& a.channel == b.channel
    &&& a.flags == b.flags
    &&& a.datetime == b.datetime
}

impl DatumModel {
    /// The model carries each flag once.
    pub open spec fn flags_unique(self) -> bool {
        forall|i: int, j: int|
            #![trigger self.flags[i], self.flags[j]]
            0 <= i < j < self.flags.len() ==> self.flags[i] != self.flags[j]
    }

    pub open spec fn is_final(self) -> bool {
        self.flags.contains(FLAG_IS_FINAL@)
    }
}

/// One record of the event log: a logical channel name, a content string, a
/// set of string flags, a unique id and a creation time (seconds since the
/// Unix epoch).
///
/// A freshly built datum is a draft: its id and datetime are zero until the
/// log appends it and stamps both.
pub struct ChannelDatum {
    pub channel: String,
    pub content: String,
    flags: Vec<String>,
    id: u64,
    datetime: u64,
}

impl View for ChannelDatum {
    type V = DatumModel;

    closed spec fn view(&self) -> DatumModel {
        DatumModel {
            channel: self.channel@,
            content: self.content@,
            flags: self.flags@.map_values(|f: String| f@),
            id: self.id,
            datetime: self.datetime,
        }
    }
}

impl ChannelDatum {
    pub open spec fn wf(self) -> bool {
        self@.flags_unique()
    }

    /// Builds a draft datum: given channel and content, no flags, id and
    /// datetime still unassigned (zero).
    pub fn new(channel: String, content: String) -> (r: Self)
        ensures
            r@.channel == channel@,
            r@.content == content@,
            r@.flags == Seq::<Seq<char>>::empty(),
            r@.id == 0,
            r@.datetime == 0,
            r.wf(),
    {
        let r = ChannelDatum { channel, content, flags: Vec::new(), id: 0, datetime: 0 };
        assert(r@.flags =~= Seq::<Seq<char>>::empty());
        r
    }

    /// Re-issues an existing datum as a draft: channel, content and flags are
    /// kept, while id and datetime are cleared so that the log stamps them
    /// anew on append.
    pub fn move_from(channel_datum: ChannelDatum) -> (r: Self)
        ensures
            r@.channel == channel_datum@.channel,
            r@.content == channel_datum@.content,
            r@.flags == channel_datum@.flags,
            r@.id == 0,
            r@.datetime == 0,
            channel_datum.wf() ==> r.wf(),
    {
        ChannelDatum {
            channel: channel_datum.channel,
            content: channel_datum.content,
            flags: channel_datum.flags,
            id: 0,
            datetime: 0,
        }
    }

    pub fn get_id(&self) -> (r: u64)
        ensures
            r == self@.id,
    {
        self.id
    }

    /// Borrow of the channel name.
    pub fn get_channel(&self) -> (r: &String)
        ensures
            r@ == self@.channel,
    {
        &self.channel
    }

    /// Borrow of the content.
    pub fn get_content(&self) -> (r: &String)
        ensures
            r@ == self@.content,
    {
        &self.content
    }

    pub fn get_datetime(&self) -> (r: u64)
        ensures
            r == self@.datetime,
    {
        self.datetime
    }

    pub fn with_channel(self, channel: String) -> (r: Self)
        ensures
            r@ == (DatumModel { channel: channel@, ..self@ }),
            self.wf() ==> r.wf(),
    {
        ChannelDatum { channel, ..self }
    }

    pub fn with_content(self, content: String) -> (r: Self)
        ensures
            r@ == (DatumModel { content: content@, ..self@ }),
            self.wf() ==> r.wf(),
    {
        ChannelDatum { content, ..self }
    }

    pub fn has_flag(&self, flag: &str) -> (r: bool)
        ensures
            r == self@.flags.contains(flag@),
    {
        let needle: String = flag.to_owned();
        let mut i: usize = 0;
        while i < self.flags.len()
            invariant
                i <= self.flags@.len(),
                needle@ == flag@,
                forall|j: int| 0 <= j < i ==> self@.flags[j] != flag@,
                self@.flags == self.flags@.map_values(|f: String| f@),
            decreases self.flags@.len() - i,
        {
            if self.flags[i] == needle {
                assert(self@.flags[i as int] == flag@);
                return true;
            }
            i += 1;
        }
        false
    }

    /// Adds the flag unless the datum already carries it.
    pub fn with_flag(self, flag: &str) -> (r: Self)
        ensures
            r@ == (DatumModel {
                flags: if self@.flags.contains(flag@) {
                    self@.flags
                } else {
                    self@.flags.push(flag@)
                },
                ..self@
            }),
            self.wf() ==> r.wf(),
    {
        if self.has_flag(flag) {
            assert(self@ =~= (DatumModel { flags: self@.flags, ..self@ }));
            self
        } else {
            let ghost old_model = self@;
            let mut flags = self.flags;
            let owned: String = flag.to_owned();
            flags.push(owned);
            let r = ChannelDatum {
                channel: self.channel,
                content: self.content,
                flags,
                id: self.id,
                datetime: self.datetime,
            };
            assert(r@.flags =~= old_model.flags.push(flag@));
            r
        }
    }

    /// Adds the flag only when the condition holds.
    pub fn with_flag_if(self, flag: &str, condition: bool) -> (r: Self)
        ensures
            condition ==> r@ == (DatumModel {
                flags: if self@.flags.contains(flag@) {
                    self@.flags
                } else {
                    self@.flags.push(flag@)
                },
                ..self@
            }),
            !condition ==> r@ == self@,
            self.wf() ==> r.wf(),
    {
        if condition {
            self.with_flag(flag)
        } else {
            self
        }
    }

    /// Field-by-field copy whose model equals the original's.
    pub fn duplicate(&self) -> (r: Self)
        ensures
            r@ == self@,
            self.wf() ==> r.wf(),
    {
        let mut flags: Vec<String> = Vec::new();
        let mut i: usize = 0;
        while i < self.flags.len()
            invariant
                i <= self.flags@.len(),
                flags@.len() == i,
                forall|j: int| 0 <= j < i ==> flags@[j] == self.flags@[j],
            decreases self.flags@.len() - i,
        {
            flags.push(self.flags[i].clone());
            i += 1;
        }
        let r = ChannelDatum {
            channel: self.channel.clone(),
            content: self.content.clone(),
            flags,
            id: self.id,
            datetime: self.datetime,
        };
        assert(r@.flags =~= self@.flags);
        assert(r@ =~= self@);
        r
    }

    /// The flags as stored, in insertion order.
    pub fn get_flags(&self) -> (r: &Vec<String>)
        ensures
            r@.map_values(|f: String| f@) == self@.flags,
    {
        &self.flags
    }

    /// Rebuilds a datum from stored parts; only restore uses this, so the id
    /// and datetime are taken as given.
    pub(crate) fn from_parts(
        channel: String,
        content: String,
        flags: Vec<String>,
        id: u64,
        datetime: u64,
    ) -> (r: Self)
        ensures
            r@ == (DatumModel {
                channel: channel@,
                content: content@,
                flags: flags@.map_values(|f: String| f@),
                id: id,
                datetime: datetime,
            }),
    {
        ChannelDatum { channel, content, flags, id, datetime }
    }

    /// Stamps the draft with its log id and creation time.
    pub(crate) fn stamp(self, id: u64, now: u64) -> (r: Self)
        ensures
            r@ == stamped_model(self@, id, now),
            self.wf() ==> r.wf(),
    {
        let ghost orig = self@;
        let r = ChannelDatum { id, datetime: now, ..self };
        proof {
            assert(r@.flags =~~= orig.flags);
        }
        r
    }

    /// Replaces the content in place.
    pub fn set_content(&mut self, content: String)
        ensures
            final(self)@ == content_set_model(old(self)@, content@),
            old(self).wf() ==> final(self).wf(),
    {
        self.content = content;
        proof {
            assert(self@.flags =~~= old(self)@.flags);
        }
    }
}

/// Injected monotonic sequence generator for datum ids; replaces an ambient
/// process-wide counter so that restarts and restores can reset it
/// explicitly.
pub struct IdGenerator {
    next_id: u64,
}

impl IdGenerator {
    /// The id the next allocation returns.
    pub closed spec fn spec_next(&self) -> u64 {
        self.next_id
    }

    /// First allocated id is 1; 0 marks a draft datum.
    pub fn new() -> (g: Self)
        ensures
            g.spec_next() == 1,
    {
        IdGenerator { next_id: 1 }
    }

    pub fn next_preview(&self) -> (r: u64)
        ensures
            r == self.spec_next(),
    {
        self.next_id
    }

    /// Allocates the next id; each call returns a strictly larger id than
    /// every earlier call since the last reset.
    pub fn fresh(&mut self) -> (id: u64)
        requires
            old(self).spec_next() < u64::MAX,
        ensures
            id == old(self).spec_next(),
            final(self).spec_next() == id + 1,
    {
        let id = self.next_id;
        self.next_id = self.next_id + 1;
        id
    }

    /// Moves the generator so that the next allocated id is `to`; used only
    /// at restore, to move past the largest id observed in a snapshot.
    pub fn reset(&mut self, to: u64)
        ensures
            final(self).spec_next() == to,
    {
        self.next_id = to;
    }
}

} // verus!
