//! Whether a downloaded file is the one that its key belongs to.
use crate::chunks::{
    are_mac_pieces, mac_piece_size, mac_piece_start, mac_pieces_tile_the_file, mega_mac_chunks,
};
use crate::crypto::{mac_matches, FileCrypto, MacCheck};
use crate::error::{DownloadError, ErrorView};
use vstd::prelude::*;

verus! {

/// The pieces in which a file of this size is authenticated.
pub open spec fn mac_pieces(size: int) -> Seq<(u64, u64)> {
    choose|pieces: Seq<(u64, u64)>| are_mac_pieces(pieces, size)
}

/// The bytes of the pieces of a file.
pub open spec fn piece_bytes(file: Seq<u8>, pieces: Seq<(u64, u64)>) -> Seq<Seq<u8>> {
    Seq::new(
        pieces.len(),
        |i: int| file.subrange(pieces[i].0 as int, pieces[i].0 + pieces[i].1),
    )
}

/// Whether a file is the one that its key belongs to. An empty file always is.
pub open spec fn is_authentic(file: Seq<u8>, crypto: FileCrypto) -> bool {
    file.len() == 0 || mac_matches(piece_bytes(file, mac_pieces(file.len() as int)), crypto)
}

proof fn lemma_starts_grow(i: nat, j: nat)
    requires
        i <= j,
    ensures
        mac_piece_start(i) <= mac_piece_start(j),
    decreases j,
{
    if i < j {
        lemma_starts_grow(i, (j - 1) as nat);
    }
}

proof fn lemma_no_fewer_pieces(a: Seq<(u64, u64)>, b: Seq<(u64, u64)>, size: int)
    requires
        are_mac_pieces(a, size),
        are_mac_pieces(b, size),
    ensures
        a.len() >= b.len(),
{
    if a.len() < b.len() {
        let last = a.len() - 1;
        assert(size != 0 && a.len() > 0);
        assert(a[last].0 == mac_piece_start(last as nat));
        assert(mac_piece_start(a.len()) == mac_piece_start(last as nat) + mac_piece_size(last));
        lemma_starts_grow(a.len(), (b.len() - 1) as nat);
        assert(b[b.len() - 1].0 == mac_piece_start((b.len() - 1) as nat));
    }
}

/// A file of one size is authenticated in one way only.
pub proof fn mac_pieces_are_unique(a: Seq<(u64, u64)>, b: Seq<(u64, u64)>, size: int)
    requires
        are_mac_pieces(a, size),
        are_mac_pieces(b, size),
    ensures
        a == b,
{
    lemma_no_fewer_pieces(a, b, size);
    lemma_no_fewer_pieces(b, a, size);
    assert forall|i: int| 0 <= i < a.len() implies a[i] == b[i] by {
        assert(a[i].0 == b[i].0);
        if i < a.len() - 1 {
            assert(a[i].1 == mac_piece_size(i));
            assert(b[i].1 == mac_piece_size(i));
        }
    }
    assert(a =~= b);
}

/// The check of a file that is read piece by piece.
pub struct IntegrityCheck {
    crypto: FileCrypto,
    size: u64,
    pieces: Vec<(u64, u64)>,
    next: usize,
    mac: MacCheck,
}

impl IntegrityCheck {
    /// The pieces are those of the file.
    pub closed spec fn wf(self) -> bool {
        are_mac_pieces(self.pieces@, self.size as int) && self.next <= self.pieces@.len()
    }

    /// The key of the file.
    pub closed spec fn key(self) -> FileCrypto {
        self.crypto
    }

    /// The size of the file.
    pub closed spec fn file_size(self) -> u64 {
        self.size
    }

    /// The number of pieces that were read.
    pub closed spec fn pieces_read(self) -> int {
        self.next as int
    }

    /// Whether what was read so far are the first pieces of this file, as far as the code can tell.
    pub closed spec fn has_read(self, file: Seq<u8>) -> bool {
        self.mac.covers(piece_bytes(file, self.pieces@).take(self.next as int), self.crypto)
    }

    /// The check of a file of which nothing was read yet.
    pub fn new(size: u64, crypto: &FileCrypto) -> (check: IntegrityCheck)
        ensures
            check.wf(),
            check.key() == *crypto,
            check.file_size() == size,
            check.pieces_read() == 0,
            forall|file: Seq<u8>| #[trigger] check.has_read(file),
    {
        let check = IntegrityCheck {
            crypto: *crypto,
            size,
            pieces: mega_mac_chunks(size),
            next: 0,
            mac: MacCheck::new(crypto),
        };
        assert forall|file: Seq<u8>| #[trigger] check.has_read(file) by {
            assert(piece_bytes(file, check.pieces@).take(0) =~= Seq::empty());
        }
        check
    }

    /// The size of the piece that is to be read next, if the file was not read to its end.
    pub fn next_size(&self) -> (size: Option<u64>)
        requires
            self.wf(),
        ensures
            match size {
                Some(found) => self.pieces_read() < mac_pieces(self.file_size() as int).len()
                    && found == mac_pieces(self.file_size() as int)[self.pieces_read()].1,
                None => self.pieces_read() == mac_pieces(self.file_size() as int).len(),
            },
    {
        proof {
            mac_pieces_are_unique(self.pieces@, mac_pieces(self.size as int), self.size as int);
        }
        if self.next < self.pieces.len() {
            Some(self.pieces[self.next].1)
        } else {
            None
        }
    }

    /// Takes in the next piece of the file.
    pub fn absorb(&mut self, piece: &[u8])
        requires
            old(self).wf(),
            old(self).pieces_read() < mac_pieces(old(self).file_size() as int).len(),
        ensures
            final(self).wf(),
            final(self).key() == old(self).key(),
            final(self).file_size() == old(self).file_size(),
            final(self).pieces_read() == old(self).pieces_read() + 1,
            forall|file: Seq<u8>| #[trigger]
                final(self).has_read(file) <== old(self).has_read(file) && piece@ == piece_bytes(
                    file,
                    mac_pieces(old(self).file_size() as int),
                )[old(self).pieces_read()],
    {
        proof {
            mac_pieces_are_unique(self.pieces@, mac_pieces(self.size as int), self.size as int);
        }
        let total: usize = self.pieces.len();
        assert(self.next < total);
        self.mac.absorb(piece, &self.crypto);
        self.next = self.next + 1;
        assert forall|file: Seq<u8>|
            old(self).has_read(file) && piece@ == piece_bytes(
                file,
                mac_pieces(old(self).file_size() as int),
            )[old(self).pieces_read()] implies #[trigger] self.has_read(file) by {
            let all = piece_bytes(file, self.pieces@);
            let n = old(self).next as int;
            assert(all.take(n + 1) =~= all.take(n).push(piece@));
        }
    }

    /// Accepts a file that was read to its end if it is the one that its key belongs to.
    pub fn finish(&self) -> (verdict: Result<(), DownloadError>)
        requires
            self.wf(),
            self.pieces_read() == mac_pieces(self.file_size() as int).len(),
        ensures
            forall|file: Seq<u8>|
                file.len() == self.file_size() && #[trigger] self.has_read(file) ==> match verdict {
                    Ok(_) => is_authentic(file, self.key()),
                    Err(error) => !is_authentic(file, self.key()) && error@
                        == ErrorView::MacMismatch,
                },
    {
        proof {
            mac_pieces_are_unique(self.pieces@, mac_pieces(self.size as int), self.size as int);
        }
        let verdict = self.mac.finish(self.size, &self.crypto);
        assert forall|file: Seq<u8>|
            file.len() == self.file_size() && #[trigger] self.has_read(file) implies match verdict {
            Ok(_) => is_authentic(file, self.key()),
            Err(error) => !is_authentic(file, self.key()) && error@ == ErrorView::MacMismatch,
        } by {
            let all = piece_bytes(file, self.pieces@);
            assert(all.take(self.next as int) =~= all);
            assert(self.mac.covers(all, self.crypto));
        }
        verdict
    }
}

/// The pieces of a file put together give the file.
pub proof fn pieces_make_up_the_file(file: Seq<u8>, pieces: Seq<(u64, u64)>)
    requires
        are_mac_pieces(pieces, file.len() as int),
    ensures
        piece_bytes(file, pieces).flatten_alt() == file,
{
    let all = piece_bytes(file, pieces);
    let n = pieces.len();
    lemma_first_pieces(file, pieces, n);
    assert(all.take(n as int) =~= all);
    if n == 0 {
        assert(file =~= Seq::<u8>::empty());
    } else {
        assert(file.take(file.len() as int) =~= file);
    }
}

proof fn lemma_first_pieces(file: Seq<u8>, pieces: Seq<(u64, u64)>, n: nat)
    requires
        are_mac_pieces(pieces, file.len() as int),
        n <= pieces.len(),
    ensures
        n == 0 ==> piece_bytes(file, pieces).take(0).flatten_alt() == Seq::<u8>::empty(),
        n > 0 ==> pieces[n - 1].0 + pieces[n - 1].1 <= file.len() && piece_bytes(file, pieces).take(
            n as int,
        ).flatten_alt() == file.take(pieces[n - 1].0 + pieces[n - 1].1),
    decreases n,
{
    let all = piece_bytes(file, pieces);
    if n > 0 {
        let last = n - 1;
        lemma_first_pieces(file, pieces, last as nat);
        mac_pieces_tile_the_file(pieces, file.len() as int);
        let end = pieces[last].0 + pieces[last].1;
        lemma_pieces_stay_inside(pieces, file.len() as int, last);
        assert(all.take(n as int).drop_last() =~= all.take(last));
        assert(all.take(n as int).last() == all[last]);
        assert(all[last] == file.subrange(pieces[last].0 as int, end));
        if last == 0 {
            assert(pieces[0].0 == 0);
            assert(all.take(0).flatten_alt() + all[last] =~= file.take(end));
        } else {
            assert(pieces[last - 1].0 + pieces[last - 1].1 == pieces[last].0);
            assert(file.take(pieces[last].0 as int) + file.subrange(pieces[last].0 as int, end)
                =~= file.take(end));
        }
    } else {
        assert(all.take(0) =~= Seq::<Seq<u8>>::empty());
    }
}

proof fn lemma_pieces_stay_inside(pieces: Seq<(u64, u64)>, size: int, i: int)
    requires
        are_mac_pieces(pieces, size),
        0 <= i < pieces.len(),
    ensures
        pieces[i].0 + pieces[i].1 <= size,
    decreases pieces.len() - i,
{
    mac_pieces_tile_the_file(pieces, size);
    if i < pieces.len() - 1 {
        lemma_pieces_stay_inside(pieces, size, i + 1);
        assert(pieces[i].0 + pieces[i].1 == pieces[i + 1].0);
    }
}

/// A file that is not empty is authentic exactly if the code of its pieces is the one in its key,
/// and an empty one always is.
pub proof fn authentic_files_have_their_code(
    file: Seq<u8>,
    pieces: Seq<(u64, u64)>,
    crypto: FileCrypto,
)
    requires
        are_mac_pieces(pieces, file.len() as int),
    ensures
        file.len() > 0 ==> (is_authentic(file, crypto) <==> mac_matches(
            piece_bytes(file, pieces),
            crypto,
        )),
        file.len() == 0 ==> is_authentic(file, crypto),
{
    mac_pieces_are_unique(pieces, mac_pieces(file.len() as int), file.len() as int);
}

} // verus!
