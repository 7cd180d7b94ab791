//! The server-wide buffer of received records, gathered per destination
//! until a destination holds enough to be written out.
use crate::named_bytes::NamedBytes;
use vstd::prelude::*;
use vstd::slice::slice_to_vec;

verus! {

/// What a destination must hold before its bytes are written out.
pub const FLUSH_THRESHOLD: usize = 10000;

/// What the caller has to do after a record was buffered.
pub enum BufferAction {
    /// Nothing: the record is in the buffer.
    Stored,
    /// Write `bytes` out for the destination `name`; the buffer was emptied
    /// and the record that caused the flush was dropped.
    Flush { name: String, bytes: Vec<u8> },
}

/// Records buffered per destination name.
pub struct SpaceLocalBuffer {
    pub buffer: NamedBytes,
    pub buffer_size: usize,
}

/// A record as it is buffered: its bytes and a line feed.
pub open spec fn buffered_line(data: Seq<u8>) -> Seq<u8> {
    data.push(10u8)
}

/// `after` and `action` are what buffering the record `data` for the
/// destination `name` makes of `before`.
pub open spec fn buffered(
    before: SpaceLocalBuffer,
    after: SpaceLocalBuffer,
    name: Seq<char>,
    data: Seq<u8>,
    action: BufferAction,
) -> bool {
    &&& after.buffer_size == before.buffer_size
    &&& !before.buffer@.contains_key(name) ==> {
        &&& action is Stored
        &&& after.buffer@ == before.buffer@.insert(name, buffered_line(data))
    }
    &&& before.buffer@.contains_key(name) && before.buffer@[name].len() >= FLUSH_THRESHOLD ==> {
        &&& action matches BufferAction::Flush { name: n, bytes: b } && n@ == name && b@
            == before.buffer@[name]
        &&& after.buffer@ == Map::<Seq<char>, Seq<u8>>::empty()
    }
    &&& before.buffer@.contains_key(name) && before.buffer@[name].len() < FLUSH_THRESHOLD ==> {
        &&& action is Stored
        &&& after.buffer@ == before.buffer@.insert(name, before.buffer@[name] + buffered_line(data))
    }
}

impl SpaceLocalBuffer {
    /// An empty buffer.
    pub fn new() -> (r: SpaceLocalBuffer)
        ensures
            r.buffer@ == Map::<Seq<char>, Seq<u8>>::empty(),
            r.buffer_size == 1000000,
    {
        return SpaceLocalBuffer { buffer: NamedBytes::new(), buffer_size: 1000000 };
    }

    /// Puts `value` under `name`, replacing what was there.
    pub fn insert(&mut self, name: String, value: Vec<u8>)
        ensures
            final(self).buffer@ == old(self).buffer@.insert(name@, value@),
            final(self).buffer_size == old(self).buffer_size,
    {
        self.buffer.insert(name, value);
    }

    /// Buffers the record `data` for the destination `name`: a new
    /// destination starts with the record; one that holds at least
    /// `FLUSH_THRESHOLD` bytes is handed back to be written out and the
    /// whole buffer is emptied; otherwise the record is appended.
    pub fn buffer_record(&mut self, name: &str, data: &[u8]) -> (r: BufferAction)
        ensures
            buffered(*old(self), *final(self), name@, data@, r),
    {
        let mut res = slice_to_vec(data);
        res.push(0x0a);
        match self.buffer.get(name) {
            None => {
                self.insert(name.to_owned(), res);
                BufferAction::Stored
            },
            Some(bufdata) => {
                if bufdata.len() >= FLUSH_THRESHOLD {
                    let bytes = slice_to_vec(bufdata.as_slice());
                    self.buffer.clear();
                    BufferAction::Flush { name: name.to_owned(), bytes }
                } else {
                    let mut extended = slice_to_vec(bufdata.as_slice());
                    extended.append(&mut res);
                    self.insert(name.to_owned(), extended);
                    BufferAction::Stored
                }
            },
        }
    }
}

} // verus!
