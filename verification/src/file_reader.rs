//! The chunked byte producer that feeds a file transfer.
use vstd::prelude::*;
use crate::error::CopyError;

verus! {

/// A source of file content, read in bounded chunks of a preferred size.
pub trait FileReader: Sized {
    /// The whole content this reader will produce.
    spec fn data_model(&self) -> Seq<u8>;

    /// How much of the content has been handed out.
    spec fn pos_model(&self) -> int;

    /// The position always stays within the content.
    spec fn reader_wf(&self) -> bool;

    /// The chunk size the producer prefers.
    fn buffer_size(&self) -> (r: u32)
        ensures
            r >= 1,
    ;

    /// Hands out the next chunk of at most `max_size` bytes, or None once
    /// the content is exhausted.
    fn seek(&mut self, max_size: u32) -> (r: Result<Option<Vec<u8>>, CopyError>)
        requires
            max_size >= 1,
            old(self).reader_wf(),
        ensures
            final(self).reader_wf(),
            final(self).data_model() == old(self).data_model(),
            match r {
                Result::Ok(Option::Some(chunk)) => {
                    &&& 1 <= chunk@.len() <= max_size
                    &&& final(self).pos_model() == old(self).pos_model() + chunk@.len()
                    &&& final(self).pos_model() <= old(self).data_model().len()
                    &&& chunk@ == old(self).data_model().subrange(
                        old(self).pos_model(),
                        final(self).pos_model(),
                    )
                },
                Result::Ok(Option::None) => {
                    &&& old(self).pos_model() == old(self).data_model().len()
                    &&& final(self).pos_model() == old(self).pos_model()
                },
                Result::Err(_) => true,
            },
    ;
}

/// A reader over content already held in memory, as the model backends
/// hold it.
pub struct BufferReader {
    data: Vec<u8>,
    pos: usize,
}

impl BufferReader {
    /// A reader that will produce exactly `content`.
    pub fn new(content: Vec<u8>) -> (r: BufferReader)
        ensures
            r.data_model() == content@,
            r.pos_model() == 0,
            r.reader_wf(),
    {
        BufferReader { data: content, pos: 0 }
    }
}

impl FileReader for BufferReader {
    closed spec fn data_model(&self) -> Seq<u8> {
        self.data@
    }

    closed spec fn pos_model(&self) -> int {
        self.pos as int
    }

    closed spec fn reader_wf(&self) -> bool {
        0 <= self.pos <= self.data@.len()
    }

    fn buffer_size(&self) -> (r: u32) {
        32768
    }

    fn seek(&mut self, max_size: u32) -> (r: Result<Option<Vec<u8>>, CopyError>) {
        let remaining = self.data.len() - self.pos;
        if remaining == 0 {
            return Result::Ok(Option::None);
        }
        let take: usize = if remaining < max_size as usize {
            remaining
        } else {
            max_size as usize
        };
        let mut chunk: Vec<u8> = Vec::new();
        let mut i: usize = 0;
        while i < take
            invariant
                i <= take,
                self.pos + take <= self.data@.len(),
                chunk@ == self.data@.subrange(self.pos as int, self.pos + i),
            decreases take - i,
        {
            chunk.push(self.data[self.pos + i]);
            assert(chunk@ =~= self.data@.subrange(self.pos as int, self.pos + i + 1));
            i = i + 1;
        }
        self.pos = self.pos + take;
        Result::Ok(Option::Some(chunk))
    }
}

} // verus!
