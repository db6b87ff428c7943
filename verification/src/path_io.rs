//! Path lists exchanged with other programs: NUL-delimited input read as a stream, and output
//! delimited by NUL bytes or newlines.

use vstd::prelude::*;

use crate::text::owned;

verus! {

/// The longest accepted path record, in bytes.
pub const MAX_RECORD_BYTES: usize = 1048576;
/// The largest accepted input, in bytes.
pub const MAX_TOTAL_BYTES: usize = 67108864;
/// The most accepted records.
pub const MAX_RECORDS: usize = 1000000;

/// What the reader has seen so far: the finished records, the unfinished one and the byte count.
pub struct NulModel {
    pub paths: Seq<Seq<u8>>,
    pub record: Seq<u8>,
    pub total: int,
}

/// Nothing read yet.
pub open spec fn nul_start() -> NulModel {
    NulModel { paths: Seq::empty(), record: Seq::empty(), total: 0 }
}

/// The state after one more byte, or the error it causes.
pub open spec fn nul_step(state: NulModel, byte: u8) -> Result<NulModel, Seq<char>> {
    let total = state.total + 1;
    if total > MAX_TOTAL_BYTES {
        Err("NUL path input exceeds the 64 MiB limit"@)
    } else if byte == 0 {
        if state.record.len() == 0 {
            Err("NUL path input contains an empty record"@)
        } else if state.paths.len() == MAX_RECORDS {
            Err("NUL path input exceeds 1000000 records"@)
        } else {
            Ok(NulModel { paths: state.paths.push(state.record), record: Seq::empty(), total })
        }
    } else if state.record.len() == MAX_RECORD_BYTES {
        Err("NUL path record exceeds the 1 MiB limit"@)
    } else {
        Ok(NulModel { record: state.record.push(byte), total, ..state })
    }
}

/// The state after some more bytes, or the error of the first byte that fails.
pub open spec fn nul_run(state: NulModel, bytes: Seq<u8>) -> Result<NulModel, Seq<char>>
    decreases bytes.len(),
{
    if bytes.len() == 0 {
        Ok(state)
    } else {
        match nul_step(state, bytes[0]) {
            Err(e) => Err(e),
            Ok(next) => nul_run(next, bytes.drop_first()),
        }
    }
}

/// The records of a complete input; an unfinished last record is an error.
pub open spec fn nul_end(state: NulModel) -> Result<Seq<Seq<u8>>, Seq<char>> {
    if state.record.len() > 0 {
        Err("NUL path input ends without a NUL delimiter"@)
    } else {
        Ok(state.paths)
    }
}

/// The paths of a whole NUL-delimited input.
pub open spec fn nul_paths(bytes: Seq<u8>) -> Result<Seq<Seq<u8>>, Seq<char>> {
    match nul_run(nul_start(), bytes) {
        Err(e) => Err(e),
        Ok(state) => nul_end(state),
    }
}

/// Reads NUL-delimited paths from input that arrives in pieces.
pub struct NulPathReader {
    paths: Vec<Vec<u8>>,
    record: Vec<u8>,
    total: usize,
}

impl NulPathReader {
    /// What the reader has seen so far.
    pub closed spec fn model(&self) -> NulModel {
        NulModel {
            paths: self.paths@.map_values(|p: Vec<u8>| p@),
            record: self.record@,
            total: self.total as int,
        }
    }

    /// The byte count stays within the input limit.
    pub closed spec fn wf(&self) -> bool {
        self.total <= MAX_TOTAL_BYTES
    }

    /// A reader that has seen nothing.
    pub fn new() -> (reader: NulPathReader)
        ensures
            reader.wf(),
            reader.model() == nul_start(),
    {
        let reader = NulPathReader { paths: Vec::new(), record: Vec::new(), total: 0 };
        assert(reader.model().paths =~= Seq::<Seq<u8>>::empty());
        reader
    }

    /// Reads the next piece of input.
    pub fn feed(&mut self, chunk: &[u8]) -> (out: Result<(), String>)
        requires
            old(self).wf(),
        ensures
            final(self).wf(),
            match nul_run(old(self).model(), chunk@) {
                Ok(state) => out is Ok && final(self).model() == state,
                Err(e) => out matches Err(msg) && msg@ == e,
            },
    {
        let ghost start = self.model();
        let mut i: usize = 0;
        assert(chunk@.skip(0) =~= chunk@);
        while i < chunk.len()
            invariant
                i <= chunk@.len(),
                self.wf(),
                start == old(self).model(),
                nul_run(start, chunk@) == nul_run(self.model(), chunk@.skip(i as int)),
            decreases chunk.len() - i,
        {
            let ghost before = self.model();
            assert(chunk@.skip(i as int).drop_first() =~= chunk@.skip(i as int + 1));
            let byte = chunk[i];
            if self.total >= MAX_TOTAL_BYTES {
                return Err(owned("NUL path input exceeds the 64 MiB limit"));
            }
            self.total = self.total + 1;
            if byte == 0 {
                if self.record.len() == 0 {
                    return Err(owned("NUL path input contains an empty record"));
                }
                if self.paths.len() == MAX_RECORDS {
                    return Err(owned("NUL path input exceeds 1000000 records"));
                }
                let mut finished: Vec<u8> = Vec::new();
                std::mem::swap(&mut finished, &mut self.record);
                self.paths.push(finished);
                assert(self.model().paths =~= before.paths.push(before.record));
                assert(self.model().record =~= Seq::<u8>::empty());
            } else {
                if self.record.len() == MAX_RECORD_BYTES {
                    return Err(owned("NUL path record exceeds the 1 MiB limit"));
                }
                self.record.push(byte);
                assert(self.model().paths =~= before.paths);
            }
            i = i + 1;
        }
        assert(chunk@.skip(i as int) =~= Seq::<u8>::empty());
        Ok(())
    }

    /// The records once the input has ended.
    pub fn finish(self) -> (out: Result<Vec<Vec<u8>>, String>)
        ensures
            match nul_end(self.model()) {
                Ok(paths) => out matches Ok(v) && v@.map_values(|p: Vec<u8>| p@) == paths,
                Err(e) => out matches Err(msg) && msg@ == e,
            },
    {
        if self.record.len() > 0 {
            return Err(owned("NUL path input ends without a NUL delimiter"));
        }
        Ok(self.paths)
    }
}

/// The paths of a whole NUL-delimited input.
pub fn read_nul_paths(bytes: &[u8]) -> (out: Result<Vec<Vec<u8>>, String>)
    ensures
        match nul_paths(bytes@) {
            Ok(paths) => out matches Ok(v) && v@.map_values(|p: Vec<u8>| p@) == paths,
            Err(e) => out matches Err(msg) && msg@ == e,
        },
{
    let mut reader = NulPathReader::new();
    match reader.feed(bytes) {
        Ok(()) => reader.finish(),
        Err(e) => Err(e),
    }
}

/// The output for some paths: each path's bytes followed by the delimiter.
pub open spec fn delimited(paths: Seq<Seq<u8>>, delimiter: u8) -> Seq<u8>
    decreases paths.len(),
{
    if paths.len() == 0 {
        Seq::empty()
    } else {
        delimited(paths.drop_last(), delimiter) + paths.last() + seq![delimiter]
    }
}

/// The output for some paths, each followed by a NUL byte or a newline.
pub fn format_paths(paths: &[Vec<u8>], nul_delimited: bool) -> (out: Vec<u8>)
    ensures
        out@ == delimited(paths@.map_values(|p: Vec<u8>| p@), if nul_delimited { 0u8 } else { 10u8 }),
{
    let delimiter: u8 = if nul_delimited { 0 } else { 10 };
    let ghost all = paths@.map_values(|p: Vec<u8>| p@);
    let mut out: Vec<u8> = Vec::new();
    let mut i: usize = 0;
    assert(all.take(0) =~= Seq::<Seq<u8>>::empty());
    while i < paths.len()
        invariant
            i <= paths@.len(),
            all == paths@.map_values(|p: Vec<u8>| p@),
            out@ == delimited(all.take(i as int), delimiter),
        decreases paths.len() - i,
    {
        let ghost before = out@;
        let mut k: usize = 0;
        while k < paths[i].len()
            invariant
                i < paths@.len(),
                k <= paths@[i as int]@.len(),
                out@ == before + paths@[i as int]@.take(k as int),
            decreases paths@[i as int]@.len() - k,
        {
            out.push(paths[i][k]);
            k = k + 1;
            assert(out@ =~= before + paths@[i as int]@.take(k as int));
        }
        out.push(delimiter);
        assert(all.take(i as int + 1).drop_last() =~= all.take(i as int));
        assert(paths@[i as int]@.take(k as int) =~= all[i as int]);
        assert(out@ =~= delimited(all.take(i as int + 1), delimiter));
        i = i + 1;
    }
    assert(all.take(i as int) =~= all);
    out
}

/// Reading input in pieces gives what reading it at once gives: the state after `a` then `b` is
/// the state after `a + b`, and an error in `a` is the error of the whole.
pub proof fn law_pieces_do_not_matter(state: NulModel, a: Seq<u8>, b: Seq<u8>)
    ensures
        nul_run(state, a + b) == (match nul_run(state, a) {
            Ok(middle) => nul_run(middle, b),
            Err(e) => Err(e),
        }),
    decreases a.len(),
{
    if a.len() == 0 {
        assert(a + b =~= b);
    } else {
        assert((a + b)[0] == a[0]);
        assert((a + b).drop_first() =~= a.drop_first() + b);
        match nul_step(state, a[0]) {
            Err(e) => {},
            Ok(next) => {
                law_pieces_do_not_matter(next, a.drop_first(), b);
            },
        }
    }
}

/// A record that a NUL-delimited list can hold: not empty, at most 1 MiB, and free of NUL bytes.
pub open spec fn record_ok(record: Seq<u8>) -> bool {
    &&& record.len() > 0
    &&& record.len() <= MAX_RECORD_BYTES
    &&& forall|k: int| 0 <= k < record.len() ==> #[trigger] record[k] != 0
}

/// A list of paths that NUL-delimited input can carry: every record acceptable, and at most
/// 1000000 of them.
pub open spec fn records_ok(paths: Seq<Seq<u8>>) -> bool {
    &&& forall|i: int| 0 <= i < paths.len() ==> record_ok(#[trigger] paths[i])
    &&& paths.len() <= MAX_RECORDS
}

/// What the reader keeps true: its finished records are acceptable, its unfinished record holds
/// no NUL and fits the record limit, and its byte count is what it has seen.
pub open spec fn nul_model_ok(state: NulModel) -> bool {
    &&& records_ok(state.paths)
    &&& state.record.len() <= MAX_RECORD_BYTES
    &&& (forall|k: int| 0 <= k < state.record.len() ==> #[trigger] state.record[k] != 0)
    &&& state.total == delimited(state.paths, 0).len() + state.record.len()
    &&& state.total <= MAX_TOTAL_BYTES
}

proof fn lemma_nul_step_keeps(state: NulModel, byte: u8)
    requires
        nul_model_ok(state),
        nul_step(state, byte) is Ok,
    ensures
        nul_model_ok(nul_step(state, byte)->Ok_0),
        delimited(nul_step(state, byte)->Ok_0.paths, 0) + nul_step(state, byte)->Ok_0.record
            == delimited(state.paths, 0) + state.record + seq![byte],
{
    let next = nul_step(state, byte)->Ok_0;
    if byte == 0 {
        let paths = state.paths.push(state.record);
        assert(paths.drop_last() =~= state.paths);
        assert(delimited(paths, 0) == delimited(state.paths, 0) + state.record + seq![0u8]);
        assert forall|i: int| 0 <= i < paths.len() implies record_ok(#[trigger] paths[i]) by {
            if i < state.paths.len() {
                assert(paths[i] == state.paths[i]);
            }
        }
        assert(delimited(next.paths, 0) + next.record =~= delimited(paths, 0));
    } else {
        assert(delimited(next.paths, 0) + next.record =~= delimited(state.paths, 0) + state.record + seq![byte]);
        assert forall|k: int| 0 <= k < next.record.len() implies #[trigger] next.record[k] != 0 by {
            if k < state.record.len() {
                assert(next.record[k] == state.record[k]);
            }
        }
    }
}

proof fn lemma_nul_run_keeps(state: NulModel, bytes: Seq<u8>)
    requires
        nul_model_ok(state),
        nul_run(state, bytes) is Ok,
    ensures
        nul_model_ok(nul_run(state, bytes)->Ok_0),
        delimited(nul_run(state, bytes)->Ok_0.paths, 0) + nul_run(state, bytes)->Ok_0.record
            == delimited(state.paths, 0) + state.record + bytes,
    decreases bytes.len(),
{
    if bytes.len() == 0 {
        assert(delimited(state.paths, 0) + state.record + bytes =~= delimited(state.paths, 0) + state.record);
    } else {
        lemma_nul_step_keeps(state, bytes[0]);
        let next = nul_step(state, bytes[0])->Ok_0;
        lemma_nul_run_keeps(next, bytes.drop_first());
        assert(delimited(state.paths, 0) + state.record + seq![bytes[0]] + bytes.drop_first()
            =~= delimited(state.paths, 0) + state.record + bytes);
    }
}

/// NUL-delimited input is accepted exactly when it is the NUL-delimited writing of a list of
/// records, each non-empty, free of NUL bytes and at most 1 MiB, at most 1000000 of them and at
/// most 64 MiB in all; and then it reads back as that list. Any other input (one that does not
/// end in NUL, holds an empty record, a record over 1 MiB, more than 64 MiB or more than 1000000
/// records) is refused.
pub proof fn law_nul_input_is_accepted_exactly_when_well_formed(bytes: Seq<u8>)
    ensures
        (nul_paths(bytes) is Ok) <==> (exists|paths: Seq<Seq<u8>>| #[trigger] records_ok(paths)
            && delimited(paths, 0) == bytes && bytes.len() <= MAX_TOTAL_BYTES),
        nul_paths(bytes) matches Ok(paths) ==> records_ok(paths) && delimited(paths, 0) == bytes,
{
    let start = nul_start();
    assert(delimited(start.paths, 0) =~= Seq::<u8>::empty());
    assert(nul_model_ok(start));
    if nul_run(start, bytes) is Ok {
        lemma_nul_run_keeps(start, bytes);
        assert(delimited(start.paths, 0) + start.record + bytes =~= bytes);
        let state = nul_run(start, bytes)->Ok_0;
        if state.record.len() == 0 {
            assert(delimited(state.paths, 0) + state.record =~= delimited(state.paths, 0));
            assert(records_ok(state.paths));
        }
    }
    if exists|paths: Seq<Seq<u8>>| #[trigger] records_ok(paths) && delimited(paths, 0) == bytes
        && bytes.len() <= MAX_TOTAL_BYTES {
        let paths = choose|paths: Seq<Seq<u8>>| #[trigger] records_ok(paths) && delimited(paths, 0) == bytes
            && bytes.len() <= MAX_TOTAL_BYTES;
        assert forall|i: int| 0 <= i < paths.len() implies (#[trigger] paths[i]).len() > 0 by {
            assert(record_ok(paths[i]));
        }
        assert forall|i: int, k: int| 0 <= i < paths.len() && 0 <= k < paths[i].len() implies #[trigger] paths[i][k] != 0 by {
            assert(record_ok(paths[i]));
        }
        assert forall|i: int| 0 <= i < paths.len() implies (#[trigger] paths[i]).len() <= MAX_RECORD_BYTES by {
            assert(record_ok(paths[i]));
        }
        law_nul_output_reads_back(paths);
    }
}

/// The number of NUL bytes in some input.
pub open spec fn nul_count(bytes: Seq<u8>) -> nat
    decreases bytes.len(),
{
    if bytes.len() == 0 {
        0
    } else {
        nul_count(bytes.drop_last()) + (if bytes.last() == 0 { 1nat } else { 0nat })
    }
}

/// The length of the run of non-NUL bytes at the end of some input.
pub open spec fn trailing_run(bytes: Seq<u8>) -> nat
    decreases bytes.len(),
{
    if bytes.len() == 0 || bytes.last() == 0 {
        0
    } else {
        trailing_run(bytes.drop_last()) + 1
    }
}

/// A NUL at `i` that ends an empty record: it comes first or right after another NUL.
pub open spec fn empty_record_at(bytes: Seq<u8>, i: int) -> bool {
    &&& 0 <= i < bytes.len()
    &&& bytes[i] == 0
    &&& (i == 0 || bytes[i - 1] == 0)
}

/// A record longer than 1 MiB starts at `i`: 1 MiB and one more non-NUL bytes follow.
pub open spec fn long_record_at(bytes: Seq<u8>, i: int) -> bool {
    &&& 0 <= i
    &&& i + MAX_RECORD_BYTES < bytes.len()
    &&& forall|k: int| i <= k <= i + MAX_RECORD_BYTES ==> #[trigger] bytes[k] != 0
}

/// Whether NUL-delimited input is malformed: it does not end in NUL, holds an empty record, a
/// record over 1 MiB, more than 64 MiB in all, or more than 1000000 records.
pub open spec fn nul_input_refused(bytes: Seq<u8>) -> bool {
    ||| (bytes.len() > 0 && bytes.last() != 0)
    ||| (exists|i: int| #[trigger] empty_record_at(bytes, i))
    ||| (exists|i: int| #[trigger] long_record_at(bytes, i))
    ||| bytes.len() > MAX_TOTAL_BYTES
    ||| nul_count(bytes) > MAX_RECORDS
}

proof fn lemma_trailing_run(bytes: Seq<u8>)
    ensures
        trailing_run(bytes) <= bytes.len(),
        forall|k: int| 0 <= k < trailing_run(bytes) ==> #[trigger] bytes[bytes.len() - 1 - k] != 0,
    decreases bytes.len(),
{
    if bytes.len() > 0 && bytes.last() != 0 {
        let front = bytes.drop_last();
        lemma_trailing_run(front);
        assert forall|k: int| 0 <= k < trailing_run(bytes) implies #[trigger] bytes[bytes.len() - 1 - k] != 0 by {
            if k > 0 {
                assert(bytes[bytes.len() - 1 - k] == front[front.len() - 1 - (k - 1)]);
            }
        }
    }
}

proof fn lemma_trailing_run_at_least(bytes: Seq<u8>, m: int)
    requires
        0 <= m <= bytes.len(),
        forall|k: int| 0 <= k < m ==> #[trigger] bytes[bytes.len() - 1 - k] != 0,
    ensures
        trailing_run(bytes) >= m,
    decreases bytes.len(),
{
    if m > 0 {
        let front = bytes.drop_last();
        assert(bytes[bytes.len() - 1 - 0] != 0);
        assert forall|k: int| 0 <= k < m - 1 implies #[trigger] front[front.len() - 1 - k] != 0 by {
            assert(front[front.len() - 1 - k] == bytes[bytes.len() - 1 - (k + 1)]);
        }
        lemma_trailing_run_at_least(front, m - 1);
    }
}

proof fn lemma_empty_record_push(front: Seq<u8>, byte: u8)
    ensures
        (exists|i: int| #[trigger] empty_record_at(front.push(byte), i)) <==> ((exists|i: int| #[trigger] empty_record_at(front, i))
            || (byte == 0 && (front.len() == 0 || front.last() == 0))),
{
    let b = front.push(byte);
    if exists|i: int| #[trigger] empty_record_at(b, i) {
        let i = choose|i: int| #[trigger] empty_record_at(b, i);
        if i < front.len() {
            assert(empty_record_at(front, i));
        }
    }
    if exists|i: int| #[trigger] empty_record_at(front, i) {
        let i = choose|i: int| #[trigger] empty_record_at(front, i);
        assert(empty_record_at(b, i));
    }
    if byte == 0 && (front.len() == 0 || front.last() == 0) {
        assert(empty_record_at(b, front.len() as int));
    }
}

proof fn lemma_long_record_push(front: Seq<u8>, byte: u8)
    ensures
        (exists|i: int| #[trigger] long_record_at(front.push(byte), i)) <==> ((exists|i: int| #[trigger] long_record_at(front, i))
            || (byte != 0 && trailing_run(front) >= MAX_RECORD_BYTES)),
{
    let b = front.push(byte);
    let n = front.len() as int;
    lemma_trailing_run(front);
    if exists|i: int| #[trigger] long_record_at(b, i) {
        let i = choose|i: int| #[trigger] long_record_at(b, i);
        if i + MAX_RECORD_BYTES < n {
            assert forall|k: int| i <= k <= i + MAX_RECORD_BYTES implies #[trigger] front[k] != 0 by {
                assert(b[k] != 0);
            }
            assert(long_record_at(front, i));
        } else {
            assert(b[n] != 0);
            assert forall|k: int| 0 <= k < MAX_RECORD_BYTES implies #[trigger] front[n - 1 - k] != 0 by {
                assert(b[n - 1 - k] != 0);
            }
            lemma_trailing_run_at_least(front, MAX_RECORD_BYTES as int);
        }
    }
    if exists|i: int| #[trigger] long_record_at(front, i) {
        let i = choose|i: int| #[trigger] long_record_at(front, i);
        assert forall|k: int| i <= k <= i + MAX_RECORD_BYTES implies #[trigger] b[k] != 0 by {
            assert(front[k] != 0);
        }
        assert(long_record_at(b, i));
    }
    if byte != 0 && trailing_run(front) >= MAX_RECORD_BYTES {
        let i = n - MAX_RECORD_BYTES;
        assert forall|k: int| i <= k <= i + MAX_RECORD_BYTES implies #[trigger] b[k] != 0 by {
            if k < n {
                assert(front[n - 1 - (n - 1 - k)] != 0);
            }
        }
        assert(long_record_at(b, i));
    }
}

proof fn lemma_nul_prefix(bytes: Seq<u8>)
    ensures
        (nul_run(nul_start(), bytes) is Ok) <==> (bytes.len() <= MAX_TOTAL_BYTES
            && !(exists|i: int| #[trigger] empty_record_at(bytes, i))
            && !(exists|i: int| #[trigger] long_record_at(bytes, i)) && nul_count(bytes) <= MAX_RECORDS),
        nul_run(nul_start(), bytes) matches Ok(state) ==> state.total == bytes.len() && state.paths.len()
            == nul_count(bytes) && state.record.len() == trailing_run(bytes) && state.record.len() <= MAX_RECORD_BYTES,
    decreases bytes.len(),
{
    if bytes.len() == 0 {
        assert(!(exists|i: int| #[trigger] empty_record_at(bytes, i)));
        assert(!(exists|i: int| #[trigger] long_record_at(bytes, i)));
    } else {
        let front = bytes.drop_last();
        let byte = bytes.last();
        assert(bytes =~= front.push(byte));
        assert(front + seq![byte] =~= bytes);
        lemma_nul_prefix(front);
        lemma_empty_record_push(front, byte);
        lemma_long_record_push(front, byte);
        law_pieces_do_not_matter(nul_start(), front, seq![byte]);
        assert(seq![byte].drop_first() =~= Seq::<u8>::empty());
        assert(seq![byte][0] == byte);
        match nul_run(nul_start(), front) {
            Err(e) => {},
            Ok(state) => {
                match nul_step(state, byte) {
                    Err(e) => {},
                    Ok(next) => {
                        assert(nul_run(next, Seq::<u8>::empty()) == Ok::<NulModel, Seq<char>>(next));
                    },
                }
            },
        }
    }
}

/// NUL-delimited input is refused exactly when it does not end in NUL, holds an empty record, a
/// record over 1 MiB, more than 64 MiB in all or more than 1000000 records.
pub proof fn law_nul_input_is_refused_exactly_when_malformed(bytes: Seq<u8>)
    ensures
        (nul_paths(bytes) is Err) <==> nul_input_refused(bytes),
{
    lemma_nul_prefix(bytes);
}

proof fn lemma_record_bytes(state: NulModel, q: Seq<u8>)
    requires
        forall|k: int| 0 <= k < q.len() ==> q[k] != 0,
        state.record.len() + q.len() <= MAX_RECORD_BYTES,
        state.total + q.len() <= MAX_TOTAL_BYTES,
    ensures
        nul_run(state, q) == Ok::<NulModel, Seq<char>>(
            NulModel { record: state.record + q, total: state.total + q.len(), ..state },
        ),
    decreases q.len(),
{
    if q.len() == 0 {
        assert(state.record + q =~= state.record);
    } else {
        let next = NulModel { record: state.record.push(q[0]), total: state.total + 1, ..state };
        assert forall|k: int| 0 <= k < q.drop_first().len() implies q.drop_first()[k] != 0 by {
            assert(q.drop_first()[k] == q[k + 1]);
        }
        lemma_record_bytes(next, q.drop_first());
        assert(next.record + q.drop_first() =~= state.record + q);
    }
}

/// A list of paths written with NUL delimiters reads back as the same list, when every path is
/// non-empty, holds no NUL byte and fits the record limit, and the list fits the record count
/// and input size limits.
pub proof fn law_nul_output_reads_back(paths: Seq<Seq<u8>>)
    requires
        forall|i: int| 0 <= i < paths.len() ==> (#[trigger] paths[i]).len() > 0,
        forall|i: int, k: int| 0 <= i < paths.len() && 0 <= k < paths[i].len() ==> #[trigger] paths[i][k] != 0,
        forall|i: int| 0 <= i < paths.len() ==> (#[trigger] paths[i]).len() <= MAX_RECORD_BYTES,
        paths.len() <= MAX_RECORDS,
        delimited(paths, 0).len() <= MAX_TOTAL_BYTES,
    ensures
        nul_paths(delimited(paths, 0)) == Ok::<Seq<Seq<u8>>, Seq<char>>(paths),
{
    lemma_delimited_run(paths);
}

proof fn lemma_delimited_run(paths: Seq<Seq<u8>>)
    requires
        forall|i: int| 0 <= i < paths.len() ==> (#[trigger] paths[i]).len() > 0,
        forall|i: int, k: int| 0 <= i < paths.len() && 0 <= k < paths[i].len() ==> #[trigger] paths[i][k] != 0,
        forall|i: int| 0 <= i < paths.len() ==> (#[trigger] paths[i]).len() <= MAX_RECORD_BYTES,
        paths.len() <= MAX_RECORDS,
        delimited(paths, 0).len() <= MAX_TOTAL_BYTES,
    ensures
        nul_run(nul_start(), delimited(paths, 0)) == Ok::<NulModel, Seq<char>>(
            NulModel { paths, record: Seq::empty(), total: delimited(paths, 0).len() as int },
        ),
    decreases paths.len(),
{
    if paths.len() == 0 {
        assert(paths =~= Seq::<Seq<u8>>::empty());
    } else {
        let front = paths.drop_last();
        let last = paths.last();
        assert(delimited(paths, 0) == delimited(front, 0) + last + seq![0u8]);
        assert(delimited(front, 0).len() <= delimited(paths, 0).len());
        assert forall|i: int| 0 <= i < front.len() implies (#[trigger] front[i]).len() > 0 by {
            assert(front[i] == paths[i]);
        }
        assert forall|i: int, k: int| 0 <= i < front.len() && 0 <= k < front[i].len() implies #[trigger] front[i][k] != 0 by {
            assert(front[i] == paths[i]);
        }
        assert forall|i: int| 0 <= i < front.len() implies (#[trigger] front[i]).len() <= MAX_RECORD_BYTES by {
            assert(front[i] == paths[i]);
        }
        lemma_delimited_run(front);
        let middle = NulModel { paths: front, record: Seq::empty(), total: delimited(front, 0).len() as int };
        assert(delimited(paths, 0) =~= delimited(front, 0) + (last + seq![0u8]));
        law_pieces_do_not_matter(nul_start(), delimited(front, 0), last + seq![0u8]);
        assert(last == paths[paths.len() - 1]);
        assert forall|k: int| 0 <= k < last.len() implies last[k] != 0 by {
            assert(paths[paths.len() - 1][k] != 0);
        }
        lemma_record_bytes(middle, last);
        assert(Seq::<u8>::empty() + last =~= last);
        let filled = NulModel { paths: front, record: last, total: middle.total + last.len() };
        law_pieces_do_not_matter(middle, last, seq![0u8]);
        assert(seq![0u8].drop_first() =~= Seq::<u8>::empty());
        assert(front.push(last) =~= paths);
        assert(nul_run(middle, last) == Ok::<NulModel, Seq<char>>(filled));
        assert(paths[paths.len() - 1].len() > 0);
        assert(nul_step(filled, 0u8) == Ok::<NulModel, Seq<char>>(
            NulModel { paths: front.push(last), record: Seq::empty(), total: filled.total + 1 },
        ));
        let done = NulModel { paths: front.push(last), record: Seq::empty(), total: filled.total + 1 };
        assert(nul_run(done, Seq::<u8>::empty()) == Ok::<NulModel, Seq<char>>(done));
        assert(seq![0u8][0] == 0u8);
        assert(nul_run(filled, seq![0u8]) == Ok::<NulModel, Seq<char>>(
            NulModel { paths: front.push(last), record: Seq::empty(), total: filled.total + 1 },
        ));
    }
}

} // verus!
