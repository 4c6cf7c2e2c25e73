use crate::sd_batch_uploader::SdBatchUploader;
use crate::sd_parser::{lacks_body, item_matches, regex_valid, ParseError, SdItem, TAG_MARKER};
use vstd::prelude::*;

verus! {

/// The items of a list of batches, batch after batch.
pub open spec fn concat_batches(b: Seq<Vec<SdItem>>) -> Seq<SdItem>
    decreases b.len(),
{
    if b.len() == 0 {
        Seq::empty()
    } else {
        concat_batches(b.drop_last()) + b.last()@
    }
}

/// The records that have a molecule body, in order.
pub open spec fn bodied(records: Seq<Seq<char>>) -> Seq<Seq<char>> {
    records.filter(|r: Seq<char>| !lacks_body(r))
}

/// The views of a list of records.
pub open spec fn texts(records: Seq<String>) -> Seq<Seq<char>> {
    records.map_values(|r: String| r@)
}

/// What a run of the loader handed out: the batches, each for one bulk copy,
/// and the number of records skipped for want of a body.
pub struct LoadOutcome {
    pub batches: Vec<Vec<SdItem>>,
    pub skipped: usize,
}

/// Parses the records one after the other, skips those without a body, and
/// feeds the items to an uploader with the given threshold; its last flush is
/// the last batch. Stops at the first fatal parse error.
pub fn load_records(records: &Vec<String>, table_name: &str, threshold: u64) -> (r: Result<
    LoadOutcome,
    ParseError,
>)
    ensures
        regex_valid(TAG_MARKER@) ==> r is Ok,
        !regex_valid(TAG_MARKER@) && records@.len() > 0 ==> r matches Err(ParseError::InvalidMarker),
        r matches Ok(o) ==> ({
            let rows = concat_batches(o.batches@);
            let good = bodied(texts(records@));
            &&& o.skipped + good.len() == records@.len()
            &&& rows.len() == good.len()
            &&& forall|j: int| 0 <= j < rows.len() ==> item_matches(#[trigger] rows[j], good[j])
            &&& forall|j: int| 0 <= j < o.batches@.len() ==> #[trigger] o.batches@[j]@.len() > 0
        }),
{
    let mut up = SdBatchUploader::with_threshold(table_name, threshold);
    let mut batches: Vec<Vec<SdItem>> = Vec::new();
    let mut skipped: usize = 0;
    let mut i: usize = 0;
    let ghost recs = texts(records@);
    while i < records.len()
        invariant
            i <= records@.len(),
            recs == texts(records@),
            up.wf(),
            skipped + bodied(recs.subrange(0, i as int)).len() == i,
            !regex_valid(TAG_MARKER@) ==> i == 0,
            recs.len() == records@.len(),
            forall|j: int| 0 <= j < records@.len() ==> #[trigger] recs[j] == records@[j]@,
            (concat_batches(batches@) + up.rows()).len() == bodied(recs.subrange(0, i as int)).len(),
            forall|j: int|
                0 <= j < (concat_batches(batches@) + up.rows()).len() ==> item_matches(
                    #[trigger] (concat_batches(batches@) + up.rows())[j],
                    bodied(recs.subrange(0, i as int))[j],
                ),
            forall|j: int| 0 <= j < batches@.len() ==> #[trigger] batches@[j]@.len() > 0,
        decreases records@.len() - i,
    {
        let ghost before = concat_batches(batches@) + up.rows();
        let ghost prefix = recs.subrange(0, i as int);
        proof {
            assert(recs.subrange(0, i as int + 1) =~= prefix.push(recs[i as int]));
            prefix.lemma_filter_push(recs[i as int], |r: Seq<char>| !lacks_body(r));
        }
        match SdItem::new(records[i].as_str()) {
            Ok(item) => {
                let ghost it = item;
                match up.upload(item) {
                    Some(batch) => {
                        let ghost old_b = batches@;
                        batches.push(batch);
                        proof {
                            assert(batches@.drop_last() =~= old_b);
                            assert(concat_batches(batches@) + up.rows() =~= before.push(it));
                        }
                    },
                    None => {
                        proof {
                            assert(concat_batches(batches@) + up.rows() =~= before.push(it));
                        }
                    },
                }
            },
            Err(ParseError::NoBody) => {
                skipped = skipped + 1;
            },
            Err(e) => {
                return Err(e);
            },
        }
        i = i + 1;
    }
    proof {
        assert(recs.subrange(0, i as int) =~= recs);
    }
    let ghost before = concat_batches(batches@) + up.rows();
    match up.flush() {
        Some(batch) => {
            let ghost old_b = batches@;
            batches.push(batch);
            proof {
                assert(batches@.drop_last() =~= old_b);
                assert(concat_batches(batches@) =~= before);
            }
        },
        None => {
            proof {
                assert(concat_batches(batches@) =~= before);
            }
        },
    }
    Ok(LoadOutcome { batches, skipped })
}


proof fn lemma_bodied_count(s: Seq<Seq<char>>, x: Seq<char>)
    ensures
        bodied(s).to_multiset().count(x) == if lacks_body(x) {
            0
        } else {
            s.to_multiset().count(x)
        },
    decreases s.len(),
{
    broadcast use vstd::seq_lib::group_to_multiset_ensures;

    if s.len() == 0 {
        assert(bodied(s) =~= Seq::<Seq<char>>::empty());
    } else {
        let p = s.drop_last();
        lemma_bodied_count(p, x);
        assert(s =~= p.push(s.last()));
        p.lemma_filter_push(s.last(), |r: Seq<char>| !lacks_body(r));
    }
}

/// Order does not matter: records that are the same up to order (as parallel
/// workers may deliver them) yield the same multiset of bodied records, and so
/// the same rows.
pub proof fn lemma_rows_order_independent(a: Seq<Seq<char>>, b: Seq<Seq<char>>)
    requires
        a.to_multiset() == b.to_multiset(),
    ensures
        bodied(a).to_multiset() == bodied(b).to_multiset(),
{
    assert forall|x: Seq<char>| #[trigger]
        bodied(a).to_multiset().count(x) == bodied(b).to_multiset().count(x) by {
        lemma_bodied_count(a, x);
        lemma_bodied_count(b, x);
    }
    assert(bodied(a).to_multiset() =~= bodied(b).to_multiset());
}


/// A signal from the producer: one more item will arrive, or none will.
pub enum CompletionToken {
    Produced,
    StreamEnded,
}

/// What the consumer does next on a token.
pub enum DriverAction {
    /// Wait for one item on the item stream and hand it to `on_result`.
    AwaitItem,
    /// Stop reading tokens, hand out the last batch with `finish`.
    Finish,
}

/// The consumer's side of the pipeline: reads completion tokens, takes the
/// parse results of the workers, and batches the items for bulk copy.
pub struct LoadDriver {
    uploader: SdBatchUploader,
    processed: u64,
    skipped: u64,
    ended: bool,
}

impl LoadDriver {
    /// The uploader the items are gathered in.
    pub closed spec fn uploader(&self) -> SdBatchUploader {
        self.uploader
    }

    /// The number of items appended so far.
    pub closed spec fn processed(&self) -> int {
        self.processed as int
    }

    /// The number of records skipped for want of a body.
    pub closed spec fn skipped(&self) -> int {
        self.skipped as int
    }

    /// Whether the end of the stream has been signalled.
    pub closed spec fn ended(&self) -> bool {
        self.ended
    }

    /// The uploader keeps its own invariant.
    pub closed spec fn wf(&self) -> bool {
        self.uploader.wf()
    }

    /// A driver over an empty uploader.
    pub fn new(uploader: SdBatchUploader) -> (r: LoadDriver)
        requires
            uploader.wf(),
        ensures
            r.wf(),
            r.uploader() == uploader,
            r.processed() == 0,
            r.skipped() == 0,
            !r.ended(),
    {
        LoadDriver { uploader, processed: 0, skipped: 0, ended: false }
    }

    /// The statement each batch is copied with.
    pub fn copy_stmt(&self) -> (r: &str)
        ensures
            r@ == self.uploader().copy_statement(),
    {
        self.uploader.copy_stmt()
    }

    /// The number of items appended so far.
    pub fn processed_count(&self) -> (r: u64)
        ensures
            r == self.processed(),
    {
        self.processed
    }

    /// The number of records skipped for want of a body.
    pub fn skipped_count(&self) -> (r: u64)
        ensures
            r == self.skipped(),
    {
        self.skipped
    }

    /// A `Produced` token asks for one item; `StreamEnded` ends the run.
    pub fn on_token(&mut self, token: CompletionToken) -> (r: DriverAction)
        ensures
            final(self).uploader() == old(self).uploader(),
            final(self).processed() == old(self).processed(),
            final(self).skipped() == old(self).skipped(),
            token is Produced ==> r is AwaitItem && final(self).ended() == old(self).ended(),
            token is StreamEnded ==> r is Finish && final(self).ended(),
    {
        match token {
            CompletionToken::Produced => DriverAction::AwaitItem,
            CompletionToken::StreamEnded => {
                self.ended = true;
                DriverAction::Finish
            },
        }
    }

    /// Takes one worker's result. An item goes to the uploader, and a batch
    /// comes back when the threshold was crossed; a record without a body is
    /// counted and dropped; any other error is fatal and comes back as is.
    pub fn on_result(&mut self, res: Result<SdItem, ParseError>) -> (r: Result<
        Option<Vec<SdItem>>,
        ParseError,
    >)
        requires
            old(self).wf(),
        ensures
            final(self).wf(),
            final(self).ended() == old(self).ended(),
            res matches Ok(item) ==> ({
                let up = old(self).uploader();
                let over = up.byte_size() + item.mol@.len() > up.threshold();
                &&& final(self).processed() == if old(self).processed() < u64::MAX {
                    old(self).processed() + 1
                } else {
                    old(self).processed()
                }
                &&& final(self).skipped() == old(self).skipped()
                &&& final(self).uploader().threshold() == up.threshold()
                &&& final(self).uploader().copy_statement() == up.copy_statement()
                &&& over ==> (r matches Ok(Some(batch)) && batch@ == up.rows().push(item)
                    && final(self).uploader().rows().len() == 0)
                &&& !over ==> (r matches Ok(None) && final(self).uploader().rows() == up.rows().push(
                    item))
            }),
            res matches Err(ParseError::NoBody) ==> (r matches Ok(None) && final(self).uploader()
                == old(self).uploader() && final(self).processed() == old(self).processed()
                && final(self).skipped() == if old(self).skipped() < u64::MAX {
                old(self).skipped() + 1
            } else {
                old(self).skipped()
            }),
            res matches Err(ParseError::CodecFailure) ==> (r matches Err(ParseError::CodecFailure)
                && *final(self) == *old(self)),
            res matches Err(ParseError::InvalidMarker) ==> (r matches Err(
                ParseError::InvalidMarker) && *final(self) == *old(self)),
    {
        match res {
            Ok(item) => {
                self.processed = self.processed.saturating_add(1);
                Ok(self.uploader.upload(item))
            },
            Err(ParseError::NoBody) => {
                self.skipped = self.skipped.saturating_add(1);
                Ok(None)
            },
            Err(ParseError::CodecFailure) => Err(ParseError::CodecFailure),
            Err(ParseError::InvalidMarker) => Err(ParseError::InvalidMarker),
        }
    }

    /// The last batch: whatever is still buffered, unless nothing is.
    pub fn finish(&mut self) -> (r: Option<Vec<SdItem>>)
        requires
            old(self).wf(),
        ensures
            final(self).wf(),
            final(self).uploader().rows().len() == 0,
            final(self).processed() == old(self).processed(),
            final(self).skipped() == old(self).skipped(),
            old(self).uploader().rows().len() == 0 ==> r is None,
            old(self).uploader().rows().len() > 0 ==> (r matches Some(batch) && batch@ == old(
                self,
            ).uploader().rows()),
    {
        self.uploader.flush()
    }
}

/// What a run of the program loads: the input file, the target table and the
/// configuration file.
pub struct ImportJob {
    pub file_name: String,
    pub table_name: String,
    pub config_name: String,
}

/// The configuration file used when none is named.
pub const DEFAULT_CONFIG: &'static str = "config.yml";

/// The job for loading `file_name` into `table_name`, with the configuration
/// file given, or `config.yml` when none is.
pub fn import(file_name: &str, table_name: &str, config_name: Option<String>) -> (r: ImportJob)
    ensures
        r.file_name@ == file_name@,
        r.table_name@ == table_name@,
        config_name matches Some(c) ==> r.config_name@ == c@,
        config_name is None ==> r.config_name@ == DEFAULT_CONFIG@,
{
    let config_name = match config_name {
        Some(c) => c,
        None => DEFAULT_CONFIG.to_string(),
    };
    ImportJob { file_name: file_name.to_string(), table_name: table_name.to_string(), config_name }
}

/// `schema.table`: the table name qualified by its schema.
pub fn qualified_table_name(schema: &str, table_name: &str) -> (r: String)
    ensures
        r@ == schema@ + "."@ + table_name@,
{
    let mut r = String::from_str(schema);
    r.append(".");
    r.append(table_name);
    proof {
        reveal_strlit(".");
    }
    r
}

} // verus!
