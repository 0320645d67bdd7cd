use vstd::prelude::*;
use vstd::arithmetic::div_mod::lemma_div_plus_one;
use vstd::slice::slice_subrange;
use vstd::utf8::{decode_utf8, length_of_first_scalar, pop_first_scalar, valid_first_scalar};

verus! {

/// Length in bytes of the longest prefix of `b` that is valid UTF-8.
pub open spec fn utf8_valid_len(b: Seq<u8>) -> nat
    decreases b.len(),
{
    if b.len() > 0 && valid_first_scalar(b) && 0 < length_of_first_scalar(b) <= b.len() {
        (length_of_first_scalar(b) + utf8_valid_len(pop_first_scalar(b))) as nat
    } else {
        0
    }
}

/// The text of a token: the characters of the longest valid UTF-8 prefix of
/// its bytes (everything from the first invalid byte on is dropped).
pub open spec fn utf8_text(b: Seq<u8>) -> Seq<char> {
    decode_utf8(b.subrange(0, utf8_valid_len(b) as int))
}

/// Relies on `<[u8]>::utf8_chunks`: the valid part of the first chunk is the
/// longest valid UTF-8 prefix of the input; an empty input has no chunk.
#[verifier::external_body]
fn utf8_prefix(b: &[u8]) -> (r: String)
    ensures
        r@ == utf8_text(b@),
{
    String::from(b.utf8_chunks().next().map_or("", |c| c.valid()))
}

/// Index of the first NUL byte of `s`, or its length when it has none.
pub open spec fn nul_index(s: Seq<u8>) -> nat
    decreases s.len(),
{
    if s.len() == 0 || s[0] == 0 {
        0
    } else {
        1 + nul_index(s.subrange(1, s.len() as int))
    }
}

/// Tokens of a NUL-separated buffer. Every NUL ends a token; the stream ends
/// at the end of the buffer or at the first empty token.
pub open spec fn nul_tokens(s: Seq<u8>) -> Seq<Seq<char>>
    decreases s.len(),
{
    let i = nul_index(s);
    if i == 0 {
        seq![]
    } else if i < s.len() {
        seq![utf8_text(s.subrange(0, i as int))] + nul_tokens(s.subrange(i as int + 1, s.len() as int))
    } else {
        seq![utf8_text(s)]
    }
}

/// ASCII whitespace: space, tab, line feed, form feed and carriage return.
pub open spec fn is_ascii_ws(b: u8) -> bool {
    b == 0x20 || b == 0x09 || b == 0x0a || b == 0x0c || b == 0x0d
}

/// Number of leading bytes of `s` that are not ASCII whitespace.
pub open spec fn word_len(s: Seq<u8>) -> nat
    decreases s.len(),
{
    if s.len() == 0 || is_ascii_ws(s[0]) {
        0
    } else {
        1 + word_len(s.subrange(1, s.len() as int))
    }
}

/// The maximal runs of non-whitespace bytes of `s`, in order.
pub open spec fn ws_pieces(s: Seq<u8>) -> Seq<Seq<u8>>
    decreases s.len(),
{
    if s.len() == 0 {
        seq![]
    } else if is_ascii_ws(s[0]) {
        ws_pieces(s.subrange(1, s.len() as int))
    } else {
        let i = word_len(s);
        if 0 < i < s.len() {
            seq![s.subrange(0, i as int)] + ws_pieces(s.subrange(i as int, s.len() as int))
        } else {
            seq![s]
        }
    }
}

/// Tokens of a whitespace-separated buffer: the buffer is split at runs of
/// ASCII whitespace, and each piece keeps the text of its valid UTF-8 prefix.
pub open spec fn ws_tokens(b: Seq<u8>) -> Seq<Seq<char>> {
    ws_pieces(b).map_values(|p: Seq<u8>| utf8_text(p))
}

/// The characters of each string.
pub open spec fn strings_view(v: Seq<String>) -> Seq<Seq<char>> {
    v.map_values(|s: String| s@)
}

/// What one step of a token stream does: an empty stream yields nothing and
/// stays empty; otherwise its first token comes out and the rest remains.
pub open spec fn stepped(before: Seq<Seq<char>>, after: Seq<Seq<char>>, r: Option<String>) -> bool {
    match r {
        Some(t) => before.len() > 0 && t@ == before[0] && after == before.drop_first(),
        None => before.len() == 0 && after.len() == 0,
    }
}

proof fn lemma_nul_index(s: Seq<u8>, i: int)
    requires
        0 <= i <= s.len(),
        forall|k: int| 0 <= k < i ==> s[k] != 0,
        i == s.len() || s[i] == 0,
    ensures
        nul_index(s) == i,
    decreases i,
{
    if i > 0 {
        lemma_nul_index(s.subrange(1, s.len() as int), i - 1);
    }
}

proof fn lemma_word_len(s: Seq<u8>, i: int)
    requires
        0 <= i <= s.len(),
        forall|k: int| 0 <= k < i ==> !is_ascii_ws(s[k]),
        i == s.len() || is_ascii_ws(s[i]),
    ensures
        word_len(s) == i,
    decreases i,
{
    if i > 0 {
        lemma_word_len(s.subrange(1, s.len() as int), i - 1);
    }
}

fn is_ascii_ws_byte(b: u8) -> (r: bool)
    ensures
        r == is_ascii_ws(b),
{
    b == 0x20 || b == 0x09 || b == 0x0a || b == 0x0c || b == 0x0d
}

/// Splits a buffer at NUL bytes, as written by `find -print0`.
pub struct NullSplitter<'a> {
    buffer: &'a [u8],
    pos: usize,
}

impl<'a> NullSplitter<'a> {
    pub closed spec fn wf(&self) -> bool {
        self.pos <= self.buffer@.len()
    }

    /// The tokens still to come.
    pub closed spec fn tokens(&self) -> Seq<Seq<char>> {
        nul_tokens(self.buffer@.subrange(self.pos as int, self.buffer@.len() as int))
    }

    pub fn next(&mut self) -> (r: Option<String>)
        requires
            old(self).wf(),
        ensures
            final(self).wf(),
            stepped(old(self).tokens(), final(self).tokens(), r),
    {
        let buf = self.buffer;
        let start = self.pos;
        let len = buf.len();
        let ghost s = buf@.subrange(start as int, len as int);
        let mut j: usize = start;
        while j < len && buf[j] != 0
            invariant
                start <= j <= len,
                len == buf@.len(),
                forall|k: int| start <= k < j ==> buf@[k] != 0,
            decreases len - j,
        {
            j = j + 1;
        }
        proof {
            lemma_nul_index(s, j - start);
        }
        if j == start {
            self.pos = len;
            proof {
                assert(buf@.subrange(len as int, len as int).len() == 0);
            }
            return None;
        }
        let piece = slice_subrange(buf, start, j);
        let t = utf8_prefix(piece);
        proof {
            assert(piece@ =~= s.subrange(0, j - start));
        }
        if j < len {
            self.pos = j + 1;
            proof {
                let rest = s.subrange(j - start + 1, s.len() as int);
                assert(rest =~= buf@.subrange(j + 1, len as int));
                assert(nul_tokens(s) == seq![utf8_text(s.subrange(0, j - start))] + nul_tokens(
                    rest,
                ));
                assert(nul_tokens(s).drop_first() =~= nul_tokens(rest));
            }
        } else {
            self.pos = len;
            proof {
                assert(s.subrange(0, j - start) =~= s);
                assert(buf@.subrange(len as int, len as int) =~= Seq::<u8>::empty());
                assert(nul_tokens(s).drop_first() =~= Seq::<Seq<char>>::empty());
            }
        }
        Some(t)
    }
}

/// Splits a buffer at runs of ASCII whitespace.
pub struct WhitespaceSplitter<'a> {
    buffer: &'a [u8],
    pos: usize,
}

impl<'a> WhitespaceSplitter<'a> {
    pub closed spec fn wf(&self) -> bool {
        self.pos <= self.buffer@.len()
    }

    /// The tokens still to come.
    pub closed spec fn tokens(&self) -> Seq<Seq<char>> {
        ws_pieces(self.buffer@.subrange(self.pos as int, self.buffer@.len() as int)).map_values(
            |p: Seq<u8>| utf8_text(p),
        )
    }

    pub fn next(&mut self) -> (r: Option<String>)
        requires
            old(self).wf(),
        ensures
            final(self).wf(),
            stepped(old(self).tokens(), final(self).tokens(), r),
    {
        let buf = self.buffer;
        let end = buf.len();
        let mut i: usize = self.pos;
        while i < end && is_ascii_ws_byte(buf[i])
            invariant
                old(self).pos <= i <= end <= buf@.len(),
                ws_pieces(buf@.subrange(i as int, end as int)) == ws_pieces(
                    buf@.subrange(old(self).pos as int, end as int),
                ),
            decreases end - i,
        {
            proof {
                assert(buf@.subrange(i as int, end as int).subrange(1, end - i) =~= buf@.subrange(
                    i + 1,
                    end as int,
                ));
            }
            i = i + 1;
        }
        let ghost s = buf@.subrange(i as int, end as int);
        if i == end {
            self.pos = end;
            return None;
        }
        let mut j: usize = i;
        while j < end && !is_ascii_ws_byte(buf[j])
            invariant
                i <= j <= end <= buf@.len(),
                forall|k: int| i <= k < j ==> !is_ascii_ws(buf@[k]),
            decreases end - j,
        {
            j = j + 1;
        }
        proof {
            lemma_word_len(s, j - i);
        }
        let piece = slice_subrange(buf, i, j);
        let t = utf8_prefix(piece);
        self.pos = j;
        proof {
            let tail = buf@.subrange(j as int, end as int);
            assert(piece@ =~= s.subrange(0, j - i));
            assert(s.subrange(j - i, s.len() as int) =~= tail);
            if j == end {
                assert(s.subrange(0, j - i) =~= s);
                assert(tail.len() == 0);
            }
            let before = ws_pieces(s);
            assert(before[0] == piece@);
            assert(before.drop_first() =~= ws_pieces(tail));
            assert(before.map_values(|p: Seq<u8>| utf8_text(p)).drop_first() =~= ws_pieces(
                tail,
            ).map_values(|p: Seq<u8>| utf8_text(p)));
        }
        Some(t)
    }
}

/// A lazy stream of input tokens, split either at NUL bytes or at runs of
/// ASCII whitespace.
pub enum Splitter<'a> {
    Null(NullSplitter<'a>),
    Whitespace(WhitespaceSplitter<'a>),
}

impl<'a> View for Splitter<'a> {
    type V = Seq<Seq<char>>;

    /// The tokens still to come.
    open spec fn view(&self) -> Seq<Seq<char>> {
        match self {
            Splitter::Null(n) => n.tokens(),
            Splitter::Whitespace(w) => w.tokens(),
        }
    }
}

impl<'a> Splitter<'a> {
    pub open spec fn wf(&self) -> bool {
        match self {
            Splitter::Null(n) => n.wf(),
            Splitter::Whitespace(w) => w.wf(),
        }
    }

    /// Tokens separated by NUL bytes.
    pub fn null(buffer: &'a [u8]) -> (r: Splitter<'a>)
        ensures
            r.wf(),
            r@ == nul_tokens(buffer@),
    {
        let r = Splitter::Null(NullSplitter { buffer, pos: 0 });
        proof {
            assert(buffer@.subrange(0, buffer@.len() as int) =~= buffer@);
        }
        r
    }

    /// Tokens separated by runs of ASCII whitespace; invalid UTF-8 is
    /// dropped within each token, from its first invalid byte on.
    pub fn whitespace(buffer: &'a [u8]) -> (r: Splitter<'a>)
        ensures
            r.wf(),
            r@ == ws_tokens(buffer@),
    {
        let r = Splitter::Whitespace(WhitespaceSplitter { buffer, pos: 0 });
        proof {
            assert(buffer@.subrange(0, buffer@.len() as int) =~= buffer@);
        }
        r
    }

    /// The next token, if any.
    pub fn next(&mut self) -> (r: Option<String>)
        requires
            old(self).wf(),
        ensures
            final(self).wf(),
            stepped(old(self)@, final(self)@, r),
    {
        match self {
            Splitter::Null(n) => n.next(),
            Splitter::Whitespace(w) => w.next(),
        }
    }

    /// All remaining tokens, in order.
    pub fn collect(self) -> (r: Vec<String>)
        requires
            self.wf(),
        ensures
            strings_view(r@) == self@,
    {
        let ghost all = self@;
        let mut it = self;
        let mut out: Vec<String> = Vec::new();
        let mut done = false;
        while !done
            invariant
                it.wf(),
                strings_view(out@) + it@ == all,
                done ==> it@.len() == 0,
            decreases it@.len() + if done { 0int } else { 1int },
        {
            let ghost before = it@;
            let ghost prev = out@;
            match it.next() {
                Some(t) => {
                    out.push(t);
                    proof {
                        assert(strings_view(out@) =~= strings_view(prev).push(t@));
                        assert(strings_view(out@) + it@ =~= strings_view(prev) + before);
                    }
                },
                None => {
                    done = true;
                },
            }
        }
        proof {
            assert(strings_view(out@) + it@ =~= strings_view(out@));
        }
        out
    }
}

/// Groups of `k` consecutive items, in order; only the last may be shorter.
/// A group size of zero gives no groups.
pub open spec fn batches<A>(s: Seq<A>, k: nat) -> Seq<Seq<A>>
    decreases s.len(),
{
    if k == 0 || s.len() == 0 {
        seq![]
    } else if s.len() <= k {
        seq![s]
    } else {
        seq![s.take(k as int)] + batches(s.skip(k as int), k)
    }
}

impl<'a> Splitter<'a> {
    /// Groups the remaining tokens into batches of `chunk_size` tokens.
    pub fn chunks(self, chunk_size: usize) -> (r: SplitterChunks<'a>)
        requires
            self.wf(),
        ensures
            r.wf(),
            r@ == batches(self@, chunk_size as nat),
    {
        SplitterChunks { chunk_size, iter: self }
    }
}

/// A lazy stream of token batches.
pub struct SplitterChunks<'a> {
    chunk_size: usize,
    iter: Splitter<'a>,
}

impl<'a> View for SplitterChunks<'a> {
    type V = Seq<Seq<Seq<char>>>;

    /// The batches still to come.
    closed spec fn view(&self) -> Seq<Seq<Seq<char>>> {
        batches(self.iter@, self.chunk_size as nat)
    }
}

impl<'a> SplitterChunks<'a> {
    pub closed spec fn wf(&self) -> bool {
        self.iter.wf()
    }

    /// The next batch, if any.
    pub fn next(&mut self) -> (r: Option<Vec<String>>)
        requires
            old(self).wf(),
        ensures
            final(self).wf(),
            match r {
                Some(b) => old(self)@.len() > 0 && strings_view(b@) == old(self)@[0]
                    && final(self)@ == old(self)@.drop_first(),
                None => old(self)@.len() == 0 && final(self)@.len() == 0,
            },
    {
        let ghost before = self.iter@;
        let k = self.chunk_size;
        let mut batch: Vec<String> = Vec::new();
        let mut done = false;
        while !done && batch.len() < k
            invariant
                self.iter.wf(),
                self.chunk_size == k,
                strings_view(batch@) + self.iter@ == before,
                batch.len() <= k,
                done ==> self.iter@.len() == 0,
            decreases k - batch.len() + if done { 0int } else { 1int },
        {
            let ghost cur = self.iter@;
            let ghost prev = batch@;
            match self.iter.next() {
                Some(t) => {
                    batch.push(t);
                    proof {
                        assert(strings_view(batch@) =~= strings_view(prev).push(t@));
                        assert(strings_view(batch@) + self.iter@ =~= strings_view(prev) + cur);
                    }
                },
                None => {
                    done = true;
                },
            }
        }
        let ghost n = batch.len() as int;
        proof {
            assert(before.take(n) =~= strings_view(batch@));
            assert(before.skip(n) =~= self.iter@);
        }
        if batch.len() == 0 {
            proof {
                assert(before.len() == 0 || k == 0);
            }
            None
        } else {
            proof {
                if before.len() > k {
                    assert(batches(before, k as nat).drop_first() =~= batches(self.iter@, k as nat));
                } else {
                    assert(before.take(n) =~= before);
                    assert(batches(before, k as nat).drop_first() =~= Seq::<Seq<Seq<char>>>::empty());
                }
            }
            Some(batch)
        }
    }

    /// All remaining batches, in order.
    pub fn collect(self) -> (r: Vec<Vec<String>>)
        requires
            self.wf(),
        ensures
            r@.map_values(|b: Vec<String>| strings_view(b@)) == self@,
    {
        let ghost all = self@;
        let mut it = self;
        let mut out: Vec<Vec<String>> = Vec::new();
        let mut done = false;
        while !done
            invariant
                it.wf(),
                out@.map_values(|b: Vec<String>| strings_view(b@)) + it@ == all,
                done ==> it@.len() == 0,
            decreases it@.len() + if done { 0int } else { 1int },
        {
            let ghost before = it@;
            let ghost prev = out@;
            match it.next() {
                Some(b) => {
                    out.push(b);
                    proof {
                        assert(out@.map_values(|b: Vec<String>| strings_view(b@)) =~= prev.map_values(
                            |b: Vec<String>| strings_view(b@),
                        ).push(strings_view(b@)));
                        assert(out@.map_values(|b: Vec<String>| strings_view(b@)) + it@
                            =~= prev.map_values(|b: Vec<String>| strings_view(b@)) + before);
                    }
                },
                None => {
                    done = true;
                },
            }
        }
        proof {
            assert(out@.map_values(|b: Vec<String>| strings_view(b@)) + it@ =~= out@.map_values(
                |b: Vec<String>| strings_view(b@),
            ));
        }
        out
    }
}

/// Batching `n` items into groups of `k` gives `ceil(n / k)` groups, all of
/// exactly `k` items but the last, which holds between one and `k`; and the
/// groups, concatenated in order, give back the items.
pub proof fn lemma_batches_partition<A>(s: Seq<A>, k: nat)
    requires
        k > 0,
    ensures
        batches(s, k).len() == (s.len() + k - 1) / (k as int),
        forall|i: int| 0 <= i < batches(s, k).len() - 1 ==> #[trigger] batches(s, k)[i].len() == k,
        batches(s, k).len() > 0 ==> 0 < batches(s, k).last().len() <= k,
        batches(s, k).flatten() == s,
    decreases s.len(),
{
    let n = s.len() as int;
    let kk = k as int;
    if n == 0 {
        assert((n + kk - 1) / kk == 0) by (nonlinear_arith)
            requires
                n == 0,
                kk > 0,
        ;
        assert(s =~= Seq::<A>::empty());
        assert(batches(s, k).len() == 0);
        assert(batches(s, k).flatten() =~= s);
    } else if n <= kk {
        assert((n + kk - 1) / kk == 1) by (nonlinear_arith)
            requires
                0 < n <= kk,
        ;
        assert(batches(s, k) == seq![s]);
        assert(seq![s].drop_first() =~= Seq::<Seq<A>>::empty());
        assert(seq![s].drop_first().flatten() =~= Seq::<A>::empty());
        assert(batches(s, k).flatten() =~= s);
    } else {
        let rest = s.skip(kk);
        lemma_batches_partition(rest, k);
        lemma_div_plus_one(rest.len() + kk - 1, kk);
        let bs = batches(s, k);
        assert(bs.drop_first() =~= batches(rest, k));
        assert(s.take(kk) + rest =~= s);
        assert(bs.flatten() == bs.first() + bs.drop_first().flatten());
        assert(bs.first() == s.take(kk));
        assert(bs.flatten() =~= s);
        assert forall|i: int| 0 <= i < bs.len() - 1 implies #[trigger] bs[i].len() == k by {
            if i > 0 {
                assert(bs[i] == batches(rest, k)[i - 1]);
            }
        }
    }
}

/// A buffer without NUL bytes is one NUL-separated token: its valid UTF-8
/// prefix.
pub proof fn lemma_nul_single_token(b: Seq<u8>)
    requires
        b.len() > 0,
        forall|k: int| 0 <= k < b.len() ==> b[k] != 0,
    ensures
        nul_tokens(b) == seq![utf8_text(b)],
{
    lemma_nul_index(b, b.len() as int);
}

/// A non-empty buffer without ASCII whitespace is one whitespace-separated
/// token: the text of its valid UTF-8 prefix.
pub proof fn lemma_ws_single_token(b: Seq<u8>)
    requires
        b.len() > 0,
        forall|k: int| 0 <= k < b.len() ==> !is_ascii_ws(b[k]),
    ensures
        ws_tokens(b) == seq![utf8_text(b)],
{
    lemma_word_len(b, b.len() as int);
    assert(ws_pieces(b) == seq![b]);
    assert(ws_tokens(b) =~= seq![utf8_text(b)]);
}

/// The bytes that belong to tokens: all but ASCII whitespace.
pub open spec fn word_byte() -> spec_fn(u8) -> bool {
    |b: u8| !is_ascii_ws(b)
}

proof fn lemma_word_len_props(s: Seq<u8>)
    ensures
        word_len(s) <= s.len(),
        forall|k: int| 0 <= k < word_len(s) ==> !is_ascii_ws(#[trigger] s[k]),
        word_len(s) < s.len() ==> is_ascii_ws(s[word_len(s) as int]),
    decreases s.len(),
{
    if s.len() > 0 && !is_ascii_ws(s[0]) {
        let t = s.subrange(1, s.len() as int);
        lemma_word_len_props(t);
        assert forall|k: int| 0 <= k < word_len(s) implies !is_ascii_ws(#[trigger] s[k]) by {
            if k > 0 {
                assert(s[k] == t[k - 1]);
            }
        }
    }
}

proof fn lemma_filter_keeps_all(s: Seq<u8>)
    requires
        forall|k: int| 0 <= k < s.len() ==> !is_ascii_ws(#[trigger] s[k]),
    ensures
        s.filter(word_byte()) == s,
    decreases s.len(),
{
    reveal(Seq::filter);
    if s.len() > 0 {
        let t = s.drop_last();
        assert forall|k: int| 0 <= k < t.len() implies !is_ascii_ws(#[trigger] t[k]) by {
            assert(t[k] == s[k]);
        }
        lemma_filter_keeps_all(t);
        assert(word_byte()(s.last()));
        assert(s.filter(word_byte()) == t.filter(word_byte()).push(s.last()));
        assert(t.push(s.last()) =~= s);
    }
}

/// Splitting at whitespace loses nothing but the whitespace: every piece is
/// non-empty and holds no ASCII whitespace, and the pieces, concatenated in
/// order, are the buffer with its whitespace removed.
pub proof fn lemma_ws_pieces_partition(s: Seq<u8>)
    ensures
        forall|i: int|
            0 <= i < ws_pieces(s).len() ==> (#[trigger] ws_pieces(s)[i]).len() > 0 && forall|k: int|
                0 <= k < ws_pieces(s)[i].len() ==> !is_ascii_ws(#[trigger] ws_pieces(s)[i][k]),
        ws_pieces(s).flatten() == s.filter(word_byte()),
    decreases s.len(),
{
    let pred = word_byte();
    if s.len() == 0 {
        reveal(Seq::filter);
        assert(ws_pieces(s).flatten() =~= s.filter(pred));
    } else {
        let head = s.subrange(0, 1);
        if is_ascii_ws(s[0]) {
            let rest = s.subrange(1, s.len() as int);
            lemma_ws_pieces_partition(rest);
            assert(head + rest =~= s);
            Seq::filter_distributes_over_add(head, rest, pred);
            reveal(Seq::filter);
            assert(head.drop_last() =~= Seq::<u8>::empty());
            assert(head.drop_last().filter(pred) =~= Seq::<u8>::empty());
            assert(!pred(head.last()));
            assert(head.filter(pred) =~= Seq::<u8>::empty());
            assert(s.filter(pred) =~= rest.filter(pred));
        } else {
            lemma_word_len_props(s);
            let i = word_len(s) as int;
            let piece = s.subrange(0, i);
            lemma_filter_keeps_all(piece);
            if 0 < i < s.len() {
                let rest = s.subrange(i, s.len() as int);
                lemma_ws_pieces_partition(rest);
                assert(piece + rest =~= s);
                Seq::filter_distributes_over_add(piece, rest, pred);
                let ps = ws_pieces(s);
                assert(ps.drop_first() =~= ws_pieces(rest));
                assert(ps.flatten() == ps.first() + ps.drop_first().flatten());
                assert forall|j: int| 0 <= j < ps.len() implies (#[trigger] ps[j]).len() > 0
                    && forall|k: int| 0 <= k < ps[j].len() ==> !is_ascii_ws(#[trigger] ps[j][k]) by {
                    if j > 0 {
                        assert(ps[j] == ws_pieces(rest)[j - 1]);
                    }
                }
            } else {
                assert(piece =~= s);
                let ps = ws_pieces(s);
                assert(ps == seq![s]);
                assert(ps.drop_first() =~= Seq::<Seq<u8>>::empty());
                assert(ps.drop_first().flatten() =~= Seq::<u8>::empty());
                assert(ps.flatten() =~= s);
            }
        }
    }
}

} // verus!
