use crate::sd_parser::SdItem;
use vstd::prelude::*;

verus! {

/// The default flush threshold: 8 MiB of buffered molecule payload.
pub const MAX_CAPACITY: u64 = 8388608;

/// The payload bytes held by a sequence of items.
pub open spec fn payload_total(rows: Seq<SdItem>) -> int
    decreases rows.len(),
{
    if rows.len() == 0 {
        0
    } else {
        payload_total(rows.drop_last()) + rows.last().mol@.len()
    }
}

/// The bulk-copy statement for a table: two columns, a blob and a document.
pub open spec fn copy_statement_of(table_name: Seq<char>) -> Seq<char> {
    "COPY "@ + table_name + " (m, p) FROM STDIN BINARY"@
}

/// Gathers items into batches for a bulk copy. Each call that hands out a
/// batch stands for one bulk-copy operation, which the caller carries out.
pub struct SdBatchUploader {
    buf: Vec<SdItem>,
    copy_stmt: String,
    buf_size: u64,
    threshold: u64,
}

impl SdBatchUploader {
    /// The items buffered and not yet handed out, in order of arrival.
    pub closed spec fn rows(&self) -> Seq<SdItem> {
        self.buf@
    }

    /// The payload bytes counted toward the threshold.
    pub closed spec fn byte_size(&self) -> int {
        self.buf_size as int
    }

    /// The payload size above which the buffer is handed out.
    pub closed spec fn threshold(&self) -> int {
        self.threshold as int
    }

    /// The statement the batches are copied with.
    pub closed spec fn copy_statement(&self) -> Seq<char> {
        self.copy_stmt@
    }

    /// The byte size is the payload of the buffered rows, and never above the threshold.
    pub closed spec fn wf(&self) -> bool {
        &&& self.buf_size as int == payload_total(self.buf@)
        &&& self.buf_size <= self.threshold
    }

    /// The buffered payload never exceeds the threshold: a crossing hands the
    /// buffer out at once, so it is empty again before any further append.
    pub proof fn lemma_within_threshold(&self)
        requires
            self.wf(),
        ensures
            0 <= self.byte_size() <= self.threshold(),
    {
    }

    /// The byte size counts exactly the payload of the buffered rows.
    pub proof fn lemma_size_is_payload(&self)
        requires
            self.wf(),
        ensures
            self.byte_size() == payload_total(self.rows()),
    {
    }

    /// An empty uploader into `table_name` with the default threshold.
    pub fn new(table_name: &str) -> (r: SdBatchUploader)
        ensures
            r.wf(),
            r.rows() == Seq::<SdItem>::empty(),
            r.byte_size() == 0,
            r.threshold() == MAX_CAPACITY,
            r.copy_statement() == copy_statement_of(table_name@),
    {
        Self::with_threshold(table_name, MAX_CAPACITY)
    }

    /// An empty uploader into `table_name` that hands out its buffer once the
    /// payload exceeds `threshold` bytes.
    pub fn with_threshold(table_name: &str, threshold: u64) -> (r: SdBatchUploader)
        ensures
            r.wf(),
            r.rows() == Seq::<SdItem>::empty(),
            r.byte_size() == 0,
            r.threshold() == threshold,
            r.copy_statement() == copy_statement_of(table_name@),
    {
        let mut copy_stmt = String::from_str("COPY ");
        copy_stmt.append(table_name);
        copy_stmt.append(" (m, p) FROM STDIN BINARY");
        proof {
            reveal_strlit("COPY ");
            reveal_strlit(" (m, p) FROM STDIN BINARY");
        }
        SdBatchUploader { buf: Vec::new(), copy_stmt, buf_size: 0, threshold }
    }

    /// The statement each batch is copied with.
    pub fn copy_stmt(&self) -> (r: &str)
        ensures
            r@ == self.copy_statement(),
    {
        self.copy_stmt.as_str()
    }

    /// Adds an item. When the payload then exceeds the threshold, the whole
    /// buffer (the item included) is handed out to be copied, and the
    /// uploader starts again from empty.
    pub fn upload(&mut self, sd_item: SdItem) -> (r: Option<Vec<SdItem>>)
        requires
            old(self).wf(),
        ensures
            final(self).wf(),
            final(self).threshold() == old(self).threshold(),
            final(self).copy_statement() == old(self).copy_statement(),
            old(self).byte_size() + sd_item.mol@.len() > old(self).threshold() ==> (r matches Some(
                batch) && batch@ == old(self).rows().push(sd_item) && final(self).rows()
                == Seq::<SdItem>::empty() && final(self).byte_size() == 0),
            old(self).byte_size() + sd_item.mol@.len() <= old(self).threshold() ==> (r is None
                && final(self).rows() == old(self).rows().push(sd_item) && final(self).byte_size()
                == old(self).byte_size() + sd_item.mol@.len()),
    {
        let len = sd_item.mol.len() as u64;
        let ghost rows = self.buf@.push(sd_item);
        let over = len > self.threshold - self.buf_size;
        self.buf.push(sd_item);
        proof {
            assert(rows.drop_last() =~= old(self).buf@);
        }
        if over {
            self.buf_size = 0;
            let r = self.flush_all();
            r
        } else {
            self.buf_size = self.buf_size + len;
            None
        }
    }

    fn flush_all(&mut self) -> (r: Option<Vec<SdItem>>)
        requires
            old(self).buf_size == 0,
            old(self).buf_size <= old(self).threshold,
        ensures
            r matches Some(batch) && batch@ == old(self).rows(),
            final(self).rows() == Seq::<SdItem>::empty(),
            final(self).wf(),
            final(self).byte_size() == 0,
            final(self).threshold == old(self).threshold,
            final(self).copy_stmt == old(self).copy_stmt,
    {
        let mut batch: Vec<SdItem> = Vec::new();
        std::mem::swap(&mut batch, &mut self.buf);
        Some(batch)
    }

    /// Hands out every buffered item to be copied, unless there is none; the
    /// uploader is empty afterwards. Called once more when loading ends, so
    /// that nothing buffered is left behind.
    pub fn flush(&mut self) -> (r: Option<Vec<SdItem>>)
        requires
            old(self).wf(),
        ensures
            final(self).wf(),
            final(self).rows() == Seq::<SdItem>::empty(),
            final(self).byte_size() == 0,
            final(self).threshold() == old(self).threshold(),
            final(self).copy_statement() == old(self).copy_statement(),
            old(self).rows().len() == 0 ==> (r is None && *final(self) == *old(self)),
            old(self).rows().len() > 0 ==> (r matches Some(batch) && batch@ == old(self).rows()),
    {
        if self.buf.len() == 0 {
            proof {
                assert(self.buf@ =~= Seq::<SdItem>::empty());
            }
            None
        } else {
            self.buf_size = 0;
            self.flush_all()
        }
    }
}

} // verus!
