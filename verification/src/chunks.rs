//! How a file is cut into chunks, and which of them are already there.
use crate::settings::lesser;
use crate::text::same_text;
use std::collections::BTreeSet;
use std::collections::VecDeque;
use vstd::arithmetic::div_mod::{
    lemma_div_is_ordered, lemma_div_multiples_vanish, lemma_fundamental_div_mod,
    lemma_multiply_divide_lt,
};
use vstd::arithmetic::mul::{
    lemma_mul_is_associative, lemma_mul_is_commutative, lemma_mul_is_distributive_add,
    lemma_mul_nonnegative,
};
use vstd::prelude::*;
use vstd::std_specs::btree::group_btree_axioms;

verus! {

/// The number of finished chunks after which a manifest is saved.
pub const RESUME_MANIFEST_SAVE_EVERY_CHUNKS: usize = 8;

/// The time after which a manifest is saved when a chunk is finished.
pub const RESUME_MANIFEST_SAVE_INTERVAL_MS: u64 = 1_500;

/// A stretch of a file: the positions of its first and of its last byte.
#[derive(Debug, Clone, Copy, PartialEq, Eq, Structural)]
pub struct Chunk {
    pub start: u64,
    pub end: u64,
}

impl Chunk {
    /// The number of bytes in the chunk.
    pub open spec fn spec_len(self) -> int {
        self.end - self.start + 1
    }

    /// The number of bytes in the chunk.
    pub fn len(&self) -> (len: u64)
        requires
            self.start <= self.end,
            self.end - self.start < u64::MAX,
        ensures
            len == self.spec_len(),
    {
        self.end - self.start + 1
    }
}

/// The number of chunks of a file.
pub open spec fn chunk_count(total_size: int, chunk_size: int) -> int {
    if total_size <= 0 {
        0
    } else {
        (total_size - 1) / chunk_size + 1
    }
}

/// Chunk `k` of a file.
pub open spec fn chunk_at(k: int, total_size: int, chunk_size: int) -> Chunk {
    Chunk {
        start: (k * chunk_size) as u64,
        end: (lesser(k * chunk_size + chunk_size, total_size) - 1) as u64,
    }
}

/// The chunks of a file, in order: all of `chunk_size` bytes, but for the last, which holds the
/// rest.
pub open spec fn all_chunks(total_size: int, chunk_size: int) -> Seq<Chunk> {
    Seq::new(
        chunk_count(total_size, chunk_size) as nat,
        |k: int| chunk_at(k, total_size, chunk_size),
    )
}

/// The chunks of a file that are not there yet, in order.
pub open spec fn missing_chunks(total_size: int, chunk_size: int, completed: Set<u64>) -> Seq<
    Chunk,
> {
    all_chunks(total_size, chunk_size).filter(|chunk: Chunk| !completed.contains(chunk.start))
}

/// Chunk `k` exists exactly if it starts inside the file.
proof fn lemma_chunk_exists(k: int, total_size: int, chunk_size: int)
    requires
        0 <= k,
        0 <= total_size,
        0 < chunk_size,
    ensures
        k < chunk_count(total_size, chunk_size) <==> k * chunk_size < total_size,
        0 <= k * chunk_size,
        (k + 1) * chunk_size == k * chunk_size + chunk_size,
{
    lemma_mul_nonnegative(k, chunk_size);
    lemma_mul_is_distributive_add(chunk_size, k, 1);
    lemma_mul_is_commutative(k, chunk_size);
    lemma_mul_is_commutative(k + 1, chunk_size);
    if total_size > 0 {
        if k * chunk_size < total_size {
            lemma_div_is_ordered(k * chunk_size, total_size - 1, chunk_size);
            lemma_div_multiples_vanish(k, chunk_size);
        } else {
            lemma_multiply_divide_lt(total_size - 1, chunk_size, k);
        }
    }
}

/// The chunks of a file that are not there yet, in order.
pub fn build_chunk_queue(total_size: u64, chunk_size: u64, completed: &BTreeSet<u64>) -> (queue:
    VecDeque<Chunk>)
    requires
        chunk_size > 0 || total_size == 0,
    ensures
        queue@ == missing_chunks(total_size as int, chunk_size as int, completed@),
{
    broadcast use group_btree_axioms;

    let mut queue: VecDeque<Chunk> = VecDeque::new();
    let mut start: u64 = 0;
    let ghost all = all_chunks(total_size as int, chunk_size as int);
    let ghost wanted = |chunk: Chunk| !completed@.contains(chunk.start);
    let ghost mut k: int = 0;
    assert(all.take(0).filter(wanted) == Seq::<Chunk>::empty()) by {
        reveal(Seq::filter);
    }
    while start < total_size
        invariant
            chunk_size > 0 || total_size == 0,
            start <= total_size,
            0 <= k <= all.len(),
            start < total_size ==> start == k * chunk_size && k < all.len(),
            start == total_size ==> k == all.len(),
            all == all_chunks(total_size as int, chunk_size as int),
            wanted == (|chunk: Chunk| !completed@.contains(chunk.start)),
            queue@ == all.take(k).filter(wanted),
        decreases total_size - start,
    {
        proof {
            lemma_chunk_exists(k, total_size as int, chunk_size as int);
            lemma_chunk_exists(k + 1, total_size as int, chunk_size as int);
        }
        let end_exclusive: u64 = if total_size - start > chunk_size {
            start + chunk_size
        } else {
            total_size
        };
        let chunk = Chunk { start, end: end_exclusive - 1 };
        assert(all[k] == chunk);
        assert(all.take(k + 1).filter(wanted) == if wanted(chunk) {
            all.take(k).filter(wanted).push(chunk)
        } else {
            all.take(k).filter(wanted)
        }) by {
            reveal(Seq::filter);
            assert(all.take(k + 1).drop_last() == all.take(k));
        }
        if !completed.contains(&start) {
            queue.push_back(chunk);
        }
        proof {
            k = k + 1;
        }
        start = end_exclusive;
    }
    assert(all.take(all.len() as int) == all);
    queue
}

/// The number of bytes, below position `limit`, that the chunks starting at `completed` add up to.
pub open spec fn bytes_started_below(
    completed: Set<u64>,
    limit: nat,
    total_size: int,
    chunk_size: int,
) -> int
    decreases limit,
{
    if limit == 0 {
        0
    } else {
        let at = limit - 1;
        let here = if at <= u64::MAX && completed.contains(at as u64) {
            lesser(total_size - at, chunk_size)
        } else {
            0
        };
        bytes_started_below(completed, at as nat, total_size, chunk_size) + here
    }
}

/// The number of bytes in the chunks of a file that start at `completed`. What starts past the end
/// of the file is left out.
pub open spec fn completed_sum(completed: Set<u64>, total_size: int, chunk_size: int) -> int {
    bytes_started_below(completed, total_size as nat, total_size, chunk_size)
}

/// A further chunk adds its own bytes.
proof fn lemma_sum_of_insert(
    completed: Set<u64>,
    start: u64,
    limit: nat,
    total_size: int,
    chunk_size: int,
)
    requires
        limit <= total_size <= u64::MAX,
        !completed.contains(start),
    ensures
        bytes_started_below(completed.insert(start), limit, total_size, chunk_size)
            == bytes_started_below(completed, limit, total_size, chunk_size) + if start < limit {
            lesser(total_size - start, chunk_size)
        } else {
            0
        },
    decreases limit,
{
    if limit > 0 {
        lemma_sum_of_insert(completed, start, (limit - 1) as nat, total_size, chunk_size);
    }
}

/// Fewer chunks have no more bytes.
proof fn lemma_sum_of_subset(
    part: Set<u64>,
    completed: Set<u64>,
    limit: nat,
    total_size: int,
    chunk_size: int,
)
    requires
        limit <= total_size <= u64::MAX,
        chunk_size >= 0,
        part.subset_of(completed),
    ensures
        0 <= bytes_started_below(part, limit, total_size, chunk_size) <= bytes_started_below(
            completed,
            limit,
            total_size,
            chunk_size,
        ),
    decreases limit,
{
    if limit > 0 {
        lemma_sum_of_subset(part, completed, (limit - 1) as nat, total_size, chunk_size);
    }
}

/// Where no chunk starts, nothing is added.
proof fn lemma_gap_adds_nothing(
    completed: Set<u64>,
    from: nat,
    to: nat,
    total_size: int,
    chunk_size: int,
)
    requires
        from <= to <= total_size <= u64::MAX,
        forall|s: u64| from <= s < to ==> !completed.contains(s),
    ensures
        bytes_started_below(completed, to, total_size, chunk_size) == bytes_started_below(
            completed,
            from,
            total_size,
            chunk_size,
        ),
    decreases to - from,
{
    if from < to {
        lemma_gap_adds_nothing(completed, from, (to - 1) as nat, total_size, chunk_size);
        assert(!completed.contains((to - 1) as u64));
    }
}

/// The keys up to and with key `i`.
proof fn lemma_next_key(keys: Seq<u64>, i: int)
    requires
        0 <= i < keys.len(),
    ensures
        keys.take(i + 1).to_set() == keys.take(i).to_set().insert(keys[i]),
        keys.take(i + 1).to_set().subset_of(keys.to_set()),
{
    let before = keys.take(i);
    let after = keys.take(i + 1);
    assert forall|x: u64| after.to_set().contains(x) == before.to_set().insert(keys[i]).contains(
        x,
    ) by {
        if before.to_set().contains(x) {
            let j = choose|j: int| 0 <= j < before.len() && before[j] == x;
            assert(after[j] == x);
        }
        if x == keys[i] {
            assert(after[i] == x);
        }
        if after.to_set().contains(x) && x != keys[i] {
            let j = choose|j: int| 0 <= j < after.len() && after[j] == x;
            assert(before[j] == x);
        }
    }
    assert(after.to_set() == before.to_set().insert(keys[i]));
    assert forall|x: u64| after.to_set().contains(x) implies keys.to_set().contains(x) by {
        let j = choose|j: int| 0 <= j < after.len() && after[j] == x;
        assert(keys[j] == x);
    }
}

/// The number of bytes in the chunks of a file that start at `completed`, if it can be counted in
/// 64 bits.
pub fn checked_completed_bytes(completed: &BTreeSet<u64>, total_size: u64, chunk_size: u64) -> (sum:
    Option<u64>)
    ensures
        match sum {
            Some(bytes) => bytes == completed_sum(completed@, total_size as int, chunk_size as int),
            None => completed_sum(completed@, total_size as int, chunk_size as int) > u64::MAX,
        },
{
    broadcast use group_btree_axioms;

    let mut sum: u64 = 0;
    let ghost all = completed@;
    let ghost total = total_size as int;
    let ghost size = chunk_size as int;
    let ghost mut done: Set<u64> = Set::empty();
    proof {
        lemma_gap_adds_nothing(done, 0, total as nat, total, size);
    }
    for start in it: completed.iter()
        invariant
            all == completed@,
            total == total_size,
            size == chunk_size,
            it.seq().unref().to_set() == all,
            it.seq().no_duplicates(),
            done == it.seq().unref().take(it.index() as int).to_set(),
            it.index() == it.seq().len() ==> done == all,
            sum == completed_sum(done, total, size),
    {
        let s: u64 = *start;
        let ghost keys = it.seq().unref();
        let ghost next = keys.take(it.index() + 1).to_set();
        proof {
            assert(keys[it.index() as int] == s);
            assert(!done.contains(s)) by {
                if done.contains(s) {
                    let taken = keys.take(it.index() as int);
                    let j = choose|j: int| 0 <= j < taken.len() && taken[j] == s;
                    assert(it.seq()[j] == it.seq()[it.index() as int]);
                }
            }
            lemma_next_key(keys, it.index() as int);
            lemma_sum_of_insert(done, s, total as nat, total, size);
            lemma_sum_of_subset(next, all, total as nat, total, size);
        }
        if s < total_size {
            let rest: u64 = total_size - s;
            let here: u64 = if rest <= chunk_size {
                rest
            } else {
                chunk_size
            };
            if here > u64::MAX - sum {
                return None;
            }
            sum = sum + here;
        }
        proof {
            done = done.insert(s);
            assert(keys.take(keys.len() as int) == keys);
        }
    }
    Some(sum)
}

/// The number of bytes in the chunks of a file that start at `completed`.
pub fn completed_bytes(completed: &BTreeSet<u64>, total_size: u64, chunk_size: u64) -> (sum: u64)
    requires
        completed_sum(completed@, total_size as int, chunk_size as int) <= u64::MAX,
    ensures
        sum == completed_sum(completed@, total_size as int, chunk_size as int),
{
    match checked_completed_bytes(completed, total_size, chunk_size) {
        Some(sum) => sum,
        None => 0,
    }
}

/// The number of bytes in all of `chunks`.
pub open spec fn total_len(chunks: Seq<Chunk>) -> int
    decreases chunks.len(),
{
    if chunks.len() == 0 {
        0
    } else {
        total_len(chunks.drop_last()) + chunks.last().spec_len()
    }
}

/// The chunks before chunk `k` are either there or missing.
proof fn lemma_bytes_add_up(completed: Set<u64>, k: nat, total_size: int, chunk_size: int)
    requires
        0 <= total_size <= u64::MAX,
        0 < chunk_size,
        k <= chunk_count(total_size, chunk_size),
        forall|start: u64|
            #[trigger] completed.contains(start) && start < total_size ==> start as int % chunk_size
                == 0,
    ensures
        ({
            let upto = lesser(k * chunk_size, total_size);
            let wanted = |chunk: Chunk| !completed.contains(chunk.start);
            0 <= upto && bytes_started_below(completed, upto as nat, total_size, chunk_size)
                + total_len(
                all_chunks(total_size, chunk_size).take(k as int).filter(wanted),
            ) == upto
        }),
    decreases k,
{
    let all = all_chunks(total_size, chunk_size);
    let wanted = |chunk: Chunk| !completed.contains(chunk.start);
    if k == 0 {
        reveal(Seq::filter);
        assert(all.take(0).filter(wanted) == Seq::<Chunk>::empty());
    } else {
        let before = (k - 1) as nat;
        lemma_bytes_add_up(completed, before, total_size, chunk_size);
        lemma_chunk_exists(before as int, total_size, chunk_size);
        let start = before * chunk_size;
        let next = lesser(start + chunk_size, total_size);
        let chunk = all[before as int];
        assert(chunk.start == start && chunk.spec_len() == next - start);
        assert(all.take(k as int).filter(wanted) == if wanted(chunk) {
            all.take(before as int).filter(wanted).push(chunk)
        } else {
            all.take(before as int).filter(wanted)
        }) by {
            reveal(Seq::filter);
            assert(all.take(k as int).drop_last() == all.take(before as int));
        }
        let kept = all.take(before as int).filter(wanted);
        assert(kept.push(chunk).drop_last() == kept);
        assert forall|s: u64| start + 1 <= s < next implies !completed.contains(s) by {
            if completed.contains(s) {
                lemma_fundamental_div_mod(s as int, chunk_size);
                let q = s as int / chunk_size;
                assert(false) by (nonlinear_arith)
                    requires
                        chunk_size * q == s,
                        before * chunk_size < s < before * chunk_size + chunk_size,
                        0 < chunk_size,
                ;
            }
        }
        lemma_gap_adds_nothing(
            completed,
            (start + 1) as nat,
            next as nat,
            total_size,
            chunk_size,
        );
    }
}

/// A file's bytes are those of its finished chunks and those still to be fetched, and no byte is
/// both: whatever chunks are finished, their bytes and those of the queue add up to the file.
pub proof fn finished_and_missing_add_up(completed: Set<u64>, total_size: int, chunk_size: int)
    requires
        0 <= total_size <= u64::MAX,
        0 < chunk_size,
        forall|start: u64|
            #[trigger] completed.contains(start) && start < total_size ==> start as int % chunk_size
                == 0,
    ensures
        completed_sum(completed, total_size, chunk_size) + total_len(
            missing_chunks(total_size, chunk_size, completed),
        ) == total_size,
{
    let count = chunk_count(total_size, chunk_size);
    if total_size > 0 {
        assert(count >= 0) by {
            lemma_div_is_ordered(0, total_size - 1, chunk_size);
            vstd::arithmetic::div_mod::lemma_div_of0(chunk_size);
        }
    }
    lemma_bytes_add_up(completed, count as nat, total_size, chunk_size);
    lemma_chunk_exists(count, total_size, chunk_size);
    let all = all_chunks(total_size, chunk_size);
    assert(all.take(count) == all);
}

/// Every byte of a file stands in exactly one of its chunks.
pub proof fn every_byte_is_in_one_chunk(at: int, total_size: int, chunk_size: int)
    requires
        0 <= at < total_size <= u64::MAX,
        0 < chunk_size,
    ensures
        exists|k: int|
            0 <= k < all_chunks(total_size, chunk_size).len() && (#[trigger] all_chunks(
                total_size,
                chunk_size,
            )[k]).start <= at <= all_chunks(total_size, chunk_size)[k].end,
        forall|i: int, j: int|
            #![trigger all_chunks(total_size, chunk_size)[i], all_chunks(total_size, chunk_size)[j]]
            0 <= i < all_chunks(total_size, chunk_size).len() && 0 <= j < all_chunks(
                total_size,
                chunk_size,
            ).len() && all_chunks(total_size, chunk_size)[i].start <= at <= all_chunks(
                total_size,
                chunk_size,
            )[i].end && all_chunks(total_size, chunk_size)[j].start <= at <= all_chunks(
                total_size,
                chunk_size,
            )[j].end ==> i == j,
{
    let all = all_chunks(total_size, chunk_size);
    let q = at / chunk_size;
    lemma_fundamental_div_mod(at, chunk_size);
    assert(0 <= q) by {
        lemma_div_is_ordered(0, at, chunk_size);
        vstd::arithmetic::div_mod::lemma_div_of0(chunk_size);
    }
    lemma_mul_is_commutative(chunk_size, q);
    lemma_chunk_exists(q, total_size, chunk_size);
    assert(all[q].start <= at <= all[q].end);
    assert forall|i: int|
        0 <= i < all.len() && (#[trigger] all[i]).start <= at <= all[i].end implies i == q by {
        lemma_chunk_exists(i, total_size, chunk_size);
        assert(i == q) by (nonlinear_arith)
            requires
                i * chunk_size <= at < i * chunk_size + chunk_size,
                q * chunk_size <= at < q * chunk_size + chunk_size,
                0 < chunk_size,
        ;
    }
}

/// Every chunk of a queue lies inside the file, and starts at a block of the cipher if the chunk
/// size is made of whole blocks.
pub proof fn queued_chunks_are_aligned(
    total_size: int,
    chunk_size: int,
    completed: Set<u64>,
    i: int,
)
    requires
        0 <= total_size <= u64::MAX,
        0 < chunk_size,
        chunk_size % 16 == 0,
        0 <= i < missing_chunks(total_size, chunk_size, completed).len(),
    ensures
        ({
            let chunk = missing_chunks(total_size, chunk_size, completed)[i];
            chunk.start <= chunk.end < total_size && chunk.start % 16 == 0 && chunk.spec_len()
                <= chunk_size && !completed.contains(chunk.start)
        }),
{
    let all = all_chunks(total_size, chunk_size);
    let wanted = |chunk: Chunk| !completed.contains(chunk.start);
    let queue = all.filter(wanted);
    assert(queue.contains(queue[i]));
    all.lemma_filter_contains_rev(wanted, queue[i]);
    let k = choose|k: int| 0 <= k < all.len() && all[k] == queue[i];
    lemma_chunk_exists(k, total_size, chunk_size);
    assert((k * chunk_size) % 16 == 0) by {
        lemma_fundamental_div_mod(chunk_size, 16);
        let blocks = chunk_size / 16;
        lemma_mul_is_associative(k, 16, blocks);
        lemma_mul_is_associative(16, k, blocks);
        lemma_mul_is_commutative(k, 16);
        lemma_div_multiples_vanish(k * blocks, 16);
        vstd::arithmetic::div_mod::lemma_mod_multiples_basic(k * blocks, 16);
        lemma_mul_is_commutative(k * blocks, 16);
    }
    assert(wanted(queue[i])) by {
        all.lemma_filter_pred(wanted, i);
    }
}

/// The size of the pieces in which a file is authenticated: 128 KiB more with each piece, up to
/// 1 MiB.
pub open spec fn mac_piece_size(i: int) -> int {
    lesser(i + 1, 8) * 0x20000
}

/// Where the piece with number `i` starts.
pub open spec fn mac_piece_start(i: nat) -> int
    decreases i,
{
    if i == 0 {
        0
    } else {
        mac_piece_start((i - 1) as nat) + mac_piece_size(i - 1)
    }
}

/// Whether `pieces`, given by start and size, are those in which a file is authenticated. The last
/// one holds the rest of the file.
pub open spec fn are_mac_pieces(pieces: Seq<(u64, u64)>, size: int) -> bool {
    &&& size == 0 <==> pieces.len() == 0
    &&& forall|i: int|
        0 <= i < pieces.len() ==> (#[trigger] pieces[i]).0 == mac_piece_start(i as nat)
    &&& forall|i: int|
        0 <= i < pieces.len() - 1 ==> (#[trigger] pieces[i]).1 == mac_piece_size(i)
    &&& pieces.len() > 0 ==> {
        &&& 0 < pieces.last().1 <= mac_piece_size(pieces.len() - 1)
        &&& pieces.last().0 + pieces.last().1 == size
    }
}

/// The pieces in which a file is authenticated, by start and size.
pub fn mega_mac_chunks(size: u64) -> (pieces: Vec<(u64, u64)>)
    ensures
        are_mac_pieces(pieces@, size as int),
{
    let mut pieces: Vec<(u64, u64)> = Vec::new();
    let mut position: u64 = 0;
    let mut piece_size: u64 = 0x20000;
    while size - position > piece_size
        invariant
            position <= size,
            position == size ==> size == 0 && pieces@.len() == 0,
            position == mac_piece_start(pieces@.len()),
            piece_size == mac_piece_size(pieces@.len() as int),
            forall|i: int|
                0 <= i < pieces@.len() ==> (#[trigger] pieces@[i]).0 == mac_piece_start(i as nat)
                    && pieces@[i].1 == mac_piece_size(i),
        decreases size - position,
    {
        pieces.push((position, piece_size));
        position = position + piece_size;
        if piece_size < 0x100000 {
            piece_size = piece_size + 0x20000;
        }
    }
    if position < size {
        pieces.push((position, size - position));
    }
    pieces
}

/// The pieces in which a file is authenticated follow one another without gaps, from its first
/// byte to its last.
pub proof fn mac_pieces_tile_the_file(pieces: Seq<(u64, u64)>, size: int)
    requires
        are_mac_pieces(pieces, size),
    ensures
        pieces.len() > 0 ==> pieces[0].0 == 0 && pieces.last().0 + pieces.last().1 == size,
        forall|i: int|
            0 <= i < pieces.len() - 1 ==> (#[trigger] pieces[i]).0 + pieces[i].1 == pieces[i
                + 1].0,
{
    assert forall|i: int| 0 <= i < pieces.len() - 1 implies (#[trigger] pieces[i]).0 + pieces[i].1
        == pieces[i + 1].0 by {
        assert(pieces[i + 1].0 == mac_piece_start((i + 1) as nat));
    }
}

/// What is known of a download that was interrupted.
#[derive(Debug)]
pub struct ResumeManifest {
    pub manifest_id: String,
    pub file_name: String,
    pub total_bytes: u64,
    pub chunk_size: u64,
    /// Where the finished chunks start.
    pub completed: BTreeSet<u64>,
}

/// The mathematical form of a `ResumeManifest`.
pub struct ManifestView {
    pub manifest_id: Seq<char>,
    pub file_name: Seq<char>,
    pub total_bytes: u64,
    pub chunk_size: u64,
    pub completed: Set<u64>,
}

impl View for ResumeManifest {
    type V = ManifestView;

    open spec fn view(&self) -> ManifestView {
        ManifestView {
            manifest_id: self.manifest_id@,
            file_name: self.file_name@,
            total_bytes: self.total_bytes,
            chunk_size: self.chunk_size,
            completed: self.completed@,
        }
    }
}

impl ResumeManifest {
    /// A manifest that says the same.
    pub fn copy(&self) -> (manifest: ResumeManifest)
        ensures
            manifest@ == self@,
    {
        ResumeManifest {
            manifest_id: self.manifest_id.clone(),
            file_name: self.file_name.clone(),
            total_bytes: self.total_bytes,
            chunk_size: self.chunk_size,
            completed: self.completed.clone(),
        }
    }
}

/// Whether a saved manifest belongs to a download of this file with these chunks.
pub open spec fn manifest_fits(
    saved: ManifestView,
    manifest_id: Seq<char>,
    total_size: u64,
    chunk_size: u64,
) -> bool {
    saved.manifest_id == manifest_id && saved.total_bytes == total_size && saved.chunk_size
        == chunk_size
}

/// The manifest that a download starts with: the saved one if it fits, or else an empty one.
pub open spec fn starting_manifest(
    saved: Option<ManifestView>,
    manifest_id: Seq<char>,
    file_name: Seq<char>,
    total_size: u64,
    chunk_size: u64,
) -> ManifestView {
    match saved {
        Some(found) if manifest_fits(found, manifest_id, total_size, chunk_size) => found,
        _ => ManifestView {
            manifest_id,
            file_name,
            total_bytes: total_size,
            chunk_size,
            completed: Set::empty(),
        },
    }
}

/// The mathematical form of a manifest that may be there.
pub open spec fn saved_view(saved: Option<ResumeManifest>) -> Option<ManifestView> {
    match saved {
        Some(found) => Some(found@),
        None => None,
    }
}

/// The manifest that a download starts with: the saved one if it fits, or else an empty one.
pub fn choose_manifest(
    saved: Option<ResumeManifest>,
    manifest_id: String,
    file_name: &str,
    total_size: u64,
    chunk_size: u64,
) -> (manifest: ResumeManifest)
    ensures
        manifest@ == starting_manifest(
            saved_view(saved),
            manifest_id@,
            file_name@,
            total_size,
            chunk_size,
        ),
{
    if let Some(found) = saved {
        if same_text(&found.manifest_id, &manifest_id) && found.total_bytes == total_size
            && found.chunk_size == chunk_size {
            return found;
        }
    }
    ResumeManifest {
        manifest_id,
        file_name: file_name.to_string(),
        total_bytes: total_size,
        chunk_size,
        completed: BTreeSet::new(),
    }
}

/// A manifest in use, and how much of it was not saved yet.
#[derive(Debug)]
pub struct ManifestState {
    pub manifest: ResumeManifest,
    pub dirty_chunks: usize,
    /// When it was saved last, in milliseconds of a clock that never runs backwards.
    pub last_saved_at: u64,
}

impl ManifestState {
    /// Fewer finished chunks are unsaved than make a manifest be saved.
    pub open spec fn wf(self) -> bool {
        self.dirty_chunks < RESUME_MANIFEST_SAVE_EVERY_CHUNKS
    }

    /// Whether finishing one more chunk at `now` makes the manifest be saved.
    pub open spec fn save_is_due(self, now: u64) -> bool {
        self.dirty_chunks + 1 >= RESUME_MANIFEST_SAVE_EVERY_CHUNKS || now - self.last_saved_at
            >= RESUME_MANIFEST_SAVE_INTERVAL_MS
    }

    /// A manifest that was saved at `now`.
    pub fn new(manifest: ResumeManifest, now: u64) -> (state: ManifestState)
        ensures
            state.manifest@ == manifest@,
            state.dirty_chunks == 0,
            state.last_saved_at == now,
            state.wf(),
    {
        ManifestState { manifest, dirty_chunks: 0, last_saved_at: now }
    }

    /// Notes at `now` that the chunk which starts at `chunk_start` is finished. Returns the
    /// manifest if it is to be saved.
    pub fn mark_completed(&mut self, chunk_start: u64, now: u64) -> (save: Option<ResumeManifest>)
        requires
            old(self).wf(),
        ensures
            final(self).wf(),
            final(self).manifest@ == (ManifestView {
                completed: old(self).manifest@.completed.insert(chunk_start),
                ..old(self).manifest@
            }),
            saved_view(save) == (if !old(self).manifest@.completed.contains(chunk_start) && old(
                self,
            ).save_is_due(now) {
                Some(final(self).manifest@)
            } else {
                None
            }),
            final(self).dirty_chunks == (if old(self).manifest@.completed.contains(chunk_start) {
                old(self).dirty_chunks as int
            } else if old(self).save_is_due(now) {
                0
            } else {
                old(self).dirty_chunks + 1
            }),
            final(self).last_saved_at == (if save is Some {
                now
            } else {
                old(self).last_saved_at
            }),
    {
        broadcast use group_btree_axioms;

        if !self.manifest.completed.insert(chunk_start) {
            assert(old(self).manifest@.completed.insert(chunk_start) == old(
                self,
            ).manifest@.completed);
            return None;
        }
        self.dirty_chunks = self.dirty_chunks + 1;
        let elapsed: u64 = if now >= self.last_saved_at {
            now - self.last_saved_at
        } else {
            0
        };
        if self.dirty_chunks >= RESUME_MANIFEST_SAVE_EVERY_CHUNKS || elapsed
            >= RESUME_MANIFEST_SAVE_INTERVAL_MS {
            self.dirty_chunks = 0;
            self.last_saved_at = now;
            Some(self.manifest.copy())
        } else {
            None
        }
    }

    /// The manifest as it is now.
    pub fn snapshot(&self) -> (manifest: ResumeManifest)
        ensures
            manifest@ == self.manifest@,
    {
        self.manifest.copy()
    }
}

/// A chunk that a manifest lists is never fetched again, and every other chunk is: the queue of a
/// resumed download holds a chunk of the file exactly if its start is not listed.
pub proof fn resumed_queue_skips_listed_chunks(
    total_size: int,
    chunk_size: int,
    completed: Set<u64>,
    k: int,
)
    requires
        0 <= k < all_chunks(total_size, chunk_size).len(),
    ensures
        missing_chunks(total_size, chunk_size, completed).contains(
            all_chunks(total_size, chunk_size)[k],
        ) <==> !completed.contains(all_chunks(total_size, chunk_size)[k].start),
{
    let all = all_chunks(total_size, chunk_size);
    let wanted = |chunk: Chunk| !completed.contains(chunk.start);
    if wanted(all[k]) {
        all.lemma_filter_contains(wanted, k);
    }
    if all.filter(wanted).contains(all[k]) {
        let i = choose|i: int| 0 <= i < all.filter(wanted).len() && all.filter(wanted)[i] == all[k];
        all.lemma_filter_pred(wanted, i);
    }
}

/// A manifest that fits is resumed from where it stands: saving it and starting again with the
/// same file and chunk size gives the same finished chunks back.
pub proof fn saved_progress_is_resumed(
    saved: ManifestView,
    manifest_id: Seq<char>,
    file_name: Seq<char>,
    total_size: u64,
    chunk_size: u64,
)
    requires
        manifest_fits(saved, manifest_id, total_size, chunk_size),
    ensures
        starting_manifest(Some(saved), manifest_id, file_name, total_size, chunk_size) == saved,
{
}

/// The chunks of a file stand one behind the other from its first byte to its last. Each has the
/// asked size, but for the last one, which may be shorter.
pub proof fn chunks_follow_one_another(total_size: int, chunk_size: int)
    requires
        0 < total_size <= u64::MAX,
        0 < chunk_size,
    ensures
        ({
            let chunks = all_chunks(total_size, chunk_size);
            &&& chunks.len() > 0
            &&& chunks[0].start == 0
            &&& chunks.last().end == total_size - 1
            &&& 1 <= chunks.last().spec_len() <= chunk_size
            &&& forall|k: int|
                0 <= k < chunks.len() - 1 ==> (#[trigger] chunks[k]).spec_len() == chunk_size
                    && chunks[k + 1].start == chunks[k].end + 1
        }),
        all_chunks(0, chunk_size).len() == 0,
{
    let chunks = all_chunks(total_size, chunk_size);
    let count = chunk_count(total_size, chunk_size);
    lemma_chunk_exists(0, total_size, chunk_size);
    assert(count > 0);
    let last = count - 1;
    lemma_chunk_exists(last, total_size, chunk_size);
    lemma_chunk_exists(count, total_size, chunk_size);
    assert(chunks.last() == chunk_at(last, total_size, chunk_size));
    assert(chunks[0] == chunk_at(0, total_size, chunk_size));
    assert forall|k: int| 0 <= k < chunks.len() - 1 implies (#[trigger] chunks[k]).spec_len()
        == chunk_size && chunks[k + 1].start == chunks[k].end + 1 by {
        lemma_chunk_exists(k, total_size, chunk_size);
        lemma_chunk_exists(k + 1, total_size, chunk_size);
        assert(chunks[k] == chunk_at(k, total_size, chunk_size));
        assert(chunks[k + 1] == chunk_at(k + 1, total_size, chunk_size));
    }
}

/// Every chunk that is still to be fetched is a chunk of the file that is not listed, and chunks
/// that stand further back in the file come later.
pub proof fn queues_keep_the_order_of_the_file(
    total_size: int,
    chunk_size: int,
    completed: Set<u64>,
)
    requires
        0 <= total_size <= u64::MAX,
        0 < chunk_size,
    ensures
        ({
            let queue = missing_chunks(total_size, chunk_size, completed);
            &&& forall|i: int|
                0 <= i < queue.len() ==> !completed.contains((#[trigger] queue[i]).start)
                    && queue[i].start as int % chunk_size == 0 && queue[i].start <= queue[i].end
                    < total_size
            &&& forall|i: int, j: int|
                0 <= i < j < queue.len() ==> (#[trigger] queue[i]).end < (#[trigger] queue[j]).start
        }),
{
    let all = all_chunks(total_size, chunk_size);
    let n = all.len() as int;
    assert forall|k: int| 0 <= k < n implies (#[trigger] all[k]).start as int % chunk_size == 0
        && all[k].start <= all[k].end < total_size by {
        lemma_chunk_exists(k, total_size, chunk_size);
        assert(all[k].start == k * chunk_size);
        vstd::arithmetic::div_mod::lemma_mod_multiples_basic(k, chunk_size);
    }
    assert forall|i: int, j: int| 0 <= i < j < n implies (#[trigger] all[i]).end < (
    #[trigger] all[j]).start by {
        lemma_chunk_exists(i, total_size, chunk_size);
        lemma_chunk_exists(j, total_size, chunk_size);
        assert((i + 1) * chunk_size <= j * chunk_size) by (nonlinear_arith)
            requires
                i + 1 <= j,
                0 < chunk_size,
        ;
        assert(all[j].start == j * chunk_size);
        assert(all[i].end < i * chunk_size + chunk_size);
    }
    lemma_filtered_chunks(all, completed, n as nat);
    assert(all.take(n) =~= all);
    let wanted = |chunk: Chunk| !completed.contains(chunk.start);
    let queue = all.filter(wanted);
    assert forall|i: int| 0 <= i < queue.len() implies !completed.contains(
        (#[trigger] queue[i]).start,
    ) && queue[i].start as int % chunk_size == 0 && queue[i].start <= queue[i].end
        < total_size by {
        let k = choose|k: int| 0 <= k < n && queue[i] == #[trigger] all[k];
        assert(queue[i] == all[k]);
    }
}

/// Picking chunks out of a row of chunks that stand apart leaves a row of such chunks.
proof fn lemma_filtered_chunks(all: Seq<Chunk>, completed: Set<u64>, upto: nat)
    requires
        upto <= all.len(),
        forall|i: int, j: int|
            0 <= i < j < all.len() ==> (#[trigger] all[i]).end < (#[trigger] all[j]).start,
    ensures
        ({
            let queue = all.take(upto as int).filter(
                |chunk: Chunk| !completed.contains(chunk.start),
            );
            &&& forall|i: int|
                0 <= i < queue.len() ==> !completed.contains((#[trigger] queue[i]).start)
                    && exists|k: int| 0 <= k < upto && queue[i] == #[trigger] all[k]
            &&& forall|i: int, j: int|
                0 <= i < j < queue.len() ==> (#[trigger] queue[i]).end < (#[trigger] queue[j]).start
        }),
    decreases upto,
{
    reveal(Seq::filter);
    let wanted = |chunk: Chunk| !completed.contains(chunk.start);
    let queue = all.take(upto as int).filter(wanted);
    if upto > 0 {
        let before = (upto - 1) as nat;
        lemma_filtered_chunks(all, completed, before);
        let shorter = all.take(before as int).filter(wanted);
        assert(all.take(upto as int).drop_last() =~= all.take(before as int));
        let last = all[before as int];
        assert(all.take(upto as int).last() == last);
        assert(queue == if wanted(last) {
            shorter.push(last)
        } else {
            shorter
        });
        assert forall|i: int| 0 <= i < queue.len() implies !completed.contains(
            (#[trigger] queue[i]).start,
        ) && exists|k: int| 0 <= k < upto && queue[i] == #[trigger] all[k] by {
            if i < shorter.len() {
                assert(queue[i] == shorter[i]);
                let k = choose|k: int| 0 <= k < before && shorter[i] == #[trigger] all[k];
                assert(queue[i] == all[k]);
            } else {
                assert(queue[i] == all[before as int]);
            }
        }
        assert forall|i: int, j: int| 0 <= i < j < queue.len() implies (#[trigger] queue[i]).end < (
        #[trigger] queue[j]).start by {
            assert(queue[i] == shorter[i]);
            if j < shorter.len() {
                assert(queue[j] == shorter[j]);
            } else {
                let k = choose|k: int| 0 <= k < before && shorter[i] == #[trigger] all[k];
                assert(queue[i] == all[k]);
                assert(queue[j] == all[before as int]);
            }
        }
    }
}

/// A manifest that lists nothing counts no byte. A chunk that is listed in addition counts its own
/// bytes, which are those up to the end of the file where it is the last, and none where it starts
/// past the end.
pub proof fn listed_chunks_count_their_bytes(
    completed: Set<u64>,
    start: u64,
    total_size: int,
    chunk_size: int,
)
    requires
        0 <= total_size <= u64::MAX,
        !completed.contains(start),
    ensures
        completed_sum(Set::empty(), total_size, chunk_size) == 0,
        start >= total_size ==> completed_sum(completed.insert(start), total_size, chunk_size)
            == completed_sum(completed, total_size, chunk_size),
        start + chunk_size <= total_size && chunk_size > 0 ==> completed_sum(
            completed.insert(start),
            total_size,
            chunk_size,
        ) == completed_sum(completed, total_size, chunk_size) + chunk_size,
        start < total_size < start + chunk_size ==> completed_sum(
            completed.insert(start),
            total_size,
            chunk_size,
        ) == completed_sum(completed, total_size, chunk_size) + total_size - start,
{
    lemma_sum_of_insert(completed, start, total_size as nat, total_size, chunk_size);
    lemma_nothing_listed(total_size as nat, total_size, chunk_size);
}

proof fn lemma_nothing_listed(limit: nat, total_size: int, chunk_size: int)
    ensures
        bytes_started_below(Set::empty(), limit, total_size, chunk_size) == 0,
    decreases limit,
{
    if limit > 0 {
        lemma_nothing_listed((limit - 1) as nat, total_size, chunk_size);
    }
}

/// The pieces in which a file is authenticated grow by 128 KiB from one to the next, up to 1 MiB.
pub proof fn mac_pieces_grow_to_one_mib(pieces: Seq<(u64, u64)>, size: int, i: int)
    requires
        are_mac_pieces(pieces, size),
        0 <= i < pieces.len(),
    ensures
        i <= 8 ==> pieces[i].0 == 0x10000 * (i * (i + 1)),
        i >= 8 ==> pieces[i].0 == 0x48_0000 + 0x10_0000 * (i - 8),
        i < pieces.len() - 1 ==> pieces[i].1 == (if i < 8 {
            0x2_0000 * (i + 1)
        } else {
            0x10_0000
        }),
        i == pieces.len() - 1 ==> pieces[i].1 == size - pieces[i].0 && 0 < pieces[i].1 <= (if i
            < 8 {
            0x2_0000 * (i + 1)
        } else {
            0x10_0000
        }),
        size == 0 <==> pieces.len() == 0,
{
    lemma_mac_piece_start(i as nat);
    assert(pieces[i].0 == mac_piece_start(i as nat));
}

proof fn lemma_mac_piece_start(i: nat)
    ensures
        i <= 8 ==> mac_piece_start(i) == 0x10000 * (i * (i + 1)),
        i >= 8 ==> mac_piece_start(i) == 0x48_0000 + 0x10_0000 * (i - 8),
    decreases i,
{
    if i > 0 {
        let j = (i - 1) as nat;
        lemma_mac_piece_start(j);
        assert(i * (i + 1) == j * (j + 1) + 2 * i) by (nonlinear_arith)
            requires
                i == j + 1,
        ;
        assert(j == 7 ==> j * (j + 1) == 56) by (nonlinear_arith);
    } else {
        assert(i * (i + 1) == 0) by (nonlinear_arith)
            requires
                i == 0,
        ;
    }
}

/// A manifest of another download, of another size or with other chunks is not resumed, and
/// neither is one that is missing: the download starts with a manifest of its own that lists
/// nothing.
pub proof fn other_manifests_are_not_resumed(
    saved: Option<ManifestView>,
    manifest_id: Seq<char>,
    file_name: Seq<char>,
    total_size: u64,
    chunk_size: u64,
)
    ensures
        ({
            let manifest = starting_manifest(
                saved,
                manifest_id,
                file_name,
                total_size,
                chunk_size,
            );
            let fits = saved matches Some(found) && found.manifest_id == manifest_id
                && found.total_bytes == total_size && found.chunk_size == chunk_size;
            &&& manifest.manifest_id == manifest_id
            &&& manifest.total_bytes == total_size
            &&& manifest.chunk_size == chunk_size
            &&& !fits ==> manifest.file_name == file_name && manifest.completed == Set::<
                u64,
            >::empty()
            &&& fits ==> Some(manifest) == saved
        }),
{
}

/// A manifest is saved at the eighth chunk that was finished since it was last saved, or at the
/// first after one and a half seconds.
pub proof fn manifests_are_saved_often(state: ManifestState, now: u64)
    requires
        state.wf(),
        now >= state.last_saved_at,
    ensures
        state.dirty_chunks <= 7,
        state.dirty_chunks == 7 ==> state.save_is_due(now),
        now - state.last_saved_at >= 1500 ==> state.save_is_due(now),
        state.dirty_chunks < 7 && now - state.last_saved_at < 1500 ==> !state.save_is_due(now),
{
}

/// A file has a chunk at every multiple of the chunk size that is inside it, and no other chunk.
pub proof fn chunks_start_at_multiples(k: int, total_size: int, chunk_size: int)
    requires
        0 <= k,
        0 <= total_size <= u64::MAX,
        0 < chunk_size,
    ensures
        k < all_chunks(total_size, chunk_size).len() <==> k * chunk_size < total_size,
        k * chunk_size < total_size ==> all_chunks(total_size, chunk_size)[k].start == k
            * chunk_size,
{
    lemma_chunk_exists(k, total_size, chunk_size);
    lemma_chunk_exists(0, total_size, chunk_size);
    assert(chunk_count(total_size, chunk_size) >= 0);
}

/// A chunk that is finished is listed, and none is taken off the list. The manifest that is saved is
/// the one that lists it. A chunk that was listed already saves nothing.
pub proof fn finished_chunks_are_listed(
    state: &mut ManifestState,
    chunk_start: u64,
    now: u64,
    save: Option<ResumeManifest>,
    start: u64,
)
    requires
        call_ensures(ManifestState::mark_completed, (state, chunk_start, now), save),
        now >= old(state).last_saved_at,
    ensures
        final(state).manifest@.completed.contains(start) <==> start == chunk_start || old(
            state,
        ).manifest@.completed.contains(start),
        final(state).manifest@.manifest_id == old(state).manifest@.manifest_id,
        final(state).manifest@.total_bytes == old(state).manifest@.total_bytes,
        final(state).manifest@.chunk_size == old(state).manifest@.chunk_size,
        save matches Some(saved) ==> saved@ == final(state).manifest@ && final(state).dirty_chunks
            == 0 && final(state).last_saved_at == now,
        old(state).manifest@.completed.contains(chunk_start) ==> save is None,
        !old(state).manifest@.completed.contains(chunk_start) ==> (save is Some <==> old(
            state,
        ).dirty_chunks >= 7 || now - old(state).last_saved_at >= 1500),
        save is None && !old(state).manifest@.completed.contains(chunk_start) ==> final(state).dirty_chunks == old(state).dirty_chunks + 1 && final(state).last_saved_at == old(
            state,
        ).last_saved_at,
{
}

} // verus!
