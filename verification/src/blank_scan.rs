//! Decides whether a line is blank from the line's bytes read in pieces, so
//! that a long line never needs to be held whole.

use vstd::prelude::*;
use vstd::utf8::*;

use crate::record::{is_blank, is_blank_line, is_white_space};

verus! {

/// Splitting a line before a byte that starts a character (or at either end)
/// splits its blankness: the whole is blank exactly when both parts are.
pub proof fn lemma_blank_concat(a: Seq<u8>, b: Seq<u8>)
    requires
        a.len() == 0 || b.len() == 0 || !is_continuation_byte(b[0]),
    ensures
        is_blank_line(a + b) == (is_blank_line(a) && is_blank_line(b)),
{
    let s = a + b;
    let n = a.len() as int;
    assert(s.subrange(0, n) =~= a);
    assert(s.subrange(n, s.len() as int) =~= b);
    assert(valid_utf8(Seq::<u8>::empty()));
    assert(decode_utf8(Seq::<u8>::empty()) =~= Seq::<char>::empty());
    if a.len() == 0 {
        assert(s =~= b);
        assert(a =~= Seq::<u8>::empty());
        assert(is_blank_line(a));
    } else if b.len() == 0 {
        assert(s =~= a);
        assert(b =~= Seq::<u8>::empty());
        assert(is_blank_line(b));
    } else {
        if valid_utf8(a) && valid_utf8(b) {
            valid_utf8_concat(a, b);
        }
        if valid_utf8(s) {
            is_char_boundary_iff_not_is_continuation_byte(s, n);
            valid_utf8_split(s, n);
            decode_utf8_split(s, n);
            let da = decode_utf8(a);
            let db = decode_utf8(b);
            let ds = decode_utf8(s);
            assert(ds == da + db);
            if is_blank_line(s) {
                assert forall|i: int| 0 <= i < da.len() implies #[trigger] is_white_space(da[i]) by {
                    assert(ds[i] == da[i]);
                    assert(is_white_space(ds[i]));
                }
                assert forall|i: int| 0 <= i < db.len() implies #[trigger] is_white_space(db[i]) by {
                    assert(ds[i + da.len()] == db[i]);
                    assert(is_white_space(ds[i + da.len()]));
                }
            }
            if is_blank_line(a) && is_blank_line(b) {
                assert forall|i: int| 0 <= i < ds.len() implies #[trigger] is_white_space(ds[i]) by {
                    if i < da.len() {
                        assert(is_white_space(da[i]));
                    } else {
                        assert(is_white_space(db[i - da.len()]));
                    }
                }
            }
        }
    }
}

/// A line that starts with a continuation byte is not UTF-8, so not blank.
proof fn lemma_continuation_start(s: Seq<u8>)
    requires
        s.len() > 0,
        is_continuation_byte(s[0]),
    ensures
        !is_blank_line(s),
{
}

/// A line whose first five bytes are a byte and four continuation bytes is
/// not UTF-8, so not blank: no character takes more than four bytes.
proof fn lemma_overlong_run(s: Seq<u8>)
    requires
        s.len() >= 5,
        forall|i: int| 1 <= i < 5 ==> is_continuation_byte(#[trigger] s[i]),
    ensures
        !is_blank_line(s),
{
    if valid_utf8(s) {
        assert(valid_first_scalar(s));
        let rest = pop_first_scalar(s);
        let l = length_of_first_scalar(s);
        assert(1 <= l <= 4);
        assert(rest.len() == s.len() - l);
        assert(rest[0] == s[l]);
        assert(is_continuation_byte(s[l]));
        assert(!valid_first_scalar(rest));
        assert(valid_utf8(rest));
        assert(false);
    }
}

/// Tracks whether a line read in pieces is blank. While the line may still be
/// blank, the scan holds only the bytes of its last, possibly unfinished,
/// character.
pub struct BlankScan {
    not_blank: bool,
    pending: Vec<u8>,
    byte_count: usize,
    seen: Ghost<Seq<u8>>,
    checked: Ghost<Seq<u8>>,
}

impl View for BlankScan {
    type V = Seq<u8>;

    /// All bytes fed so far.
    closed spec fn view(&self) -> Seq<u8> {
        self.seen@
    }
}

fn is_continuation(b: u8) -> (r: bool)
    ensures
        r == is_continuation_byte(b),
{
    0x80 <= b && b <= 0xbf
}

impl BlankScan {
    /// The scan's invariant: either no extension of the bytes seen is blank,
    /// or they are a checked blank part followed by at most four pending bytes
    /// that start a character.
    pub closed spec fn wf(&self) -> bool {
        &&& self.byte_count == self.seen@.len()
        &&& if self.not_blank {
            forall|y: Seq<u8>| !is_blank_line(#[trigger] (self.seen@ + y))
        } else {
            &&& self.seen@ == self.checked@ + self.pending@
            &&& is_blank_line(self.checked@)
            &&& self.pending@.len() <= 4
            &&& self.pending@.len() > 0 ==> !is_continuation_byte(self.pending@[0])
            &&& self.checked@.len() > 0 ==> self.pending@.len() > 0
        }
    }

    pub fn new() -> (r: Self)
        ensures
            r.wf(),
            r@ == Seq::<u8>::empty(),
    {
        let r = BlankScan {
            not_blank: false,
            pending: Vec::new(),
            byte_count: 0,
            seen: Ghost(Seq::empty()),
            checked: Ghost(Seq::empty()),
        };
        proof {
            assert(valid_utf8(Seq::<u8>::empty()));
            assert(decode_utf8(Seq::<u8>::empty()) =~= Seq::<char>::empty());
            assert(r.seen@ =~= r.checked@ + r.pending@);
        }
        r
    }

    /// The number of bytes fed so far.
    pub fn byte_count(&self) -> (r: usize)
        requires
            self.wf(),
        ensures
            r == self@.len(),
    {
        self.byte_count
    }

    /// Whether the bytes fed so far form a blank line.
    pub fn is_blank(&self) -> (r: bool)
        requires
            self.wf(),
        ensures
            r == is_blank_line(self@),
    {
        if self.not_blank {
            proof {
                assert(self.seen@ + Seq::<u8>::empty() =~= self.seen@);
            }
            false
        } else {
            proof {
                lemma_blank_concat(self.checked@, self.pending@);
            }
            is_blank(self.pending.as_slice())
        }
    }

    /// Feeds the next piece of the line.
    pub fn feed(&mut self, chunk: &[u8])
        requires
            old(self).wf(),
            old(self)@.len() + chunk@.len() <= usize::MAX,
        ensures
            final(self).wf(),
            final(self)@ == old(self)@ + chunk@,
    {
        let ghost old_seen = self.seen@;
        self.byte_count = self.byte_count + chunk.len();
        self.seen = Ghost(old_seen + chunk@);
        if self.not_blank {
            proof {
                assert forall|y: Seq<u8>| !is_blank_line(#[trigger] (self.seen@ + y)) by {
                    assert(self.seen@ + y =~= old_seen + (chunk@ + y));
                }
            }
            return ;
        }
        let ghost checked = self.checked@;
        let mut pending: Vec<u8> = Vec::new();
        std::mem::swap(&mut pending, &mut self.pending);
        let mut i: usize = 0;
        while i < chunk.len()
            invariant
                i <= chunk.len(),
                pending@ =~= old(self).pending@ + chunk@.take(i as int),
            decreases chunk.len() - i,
        {
            pending.push(chunk[i]);
            i = i + 1;
        }
        assert(chunk@.take(chunk.len() as int) =~= chunk@);
        assert(self.seen@ =~= checked + pending@);
        let len = pending.len();
        if len == 0 {
            self.pending = pending;
            return ;
        }
        if is_continuation(pending[0]) {
            proof {
                assert forall|y: Seq<u8>| !is_blank_line(#[trigger] (self.seen@ + y)) by {
                    assert(checked.len() == 0);
                    assert((self.seen@ + y)[0] == pending@[0]);
                    lemma_continuation_start(self.seen@ + y);
                }
            }
            self.not_blank = true;
            return ;
        }
        let mut k: usize = len - 1;
        while k > 0 && is_continuation(pending[k])
            invariant
                k < len,
                len == pending@.len(),
                forall|m: int| k < m < len ==> is_continuation_byte(#[trigger] pending@[m]),
            decreases k,
        {
            k = k - 1;
        }
        let ghost all = pending@;
        let ghost piece = all.take(k as int);
        let ghost rest = all.skip(k as int);
        proof {
            assert(all =~= piece + rest);
        }
        if k == 0 {
            assert(rest =~= all);
            if len > 4 {
                proof {
                    assert forall|y: Seq<u8>| !is_blank_line(#[trigger] (self.seen@ + y)) by {
                        assert(self.seen@ + y =~= checked + (rest + y));
                        assert forall|j: int| 1 <= j < 5 implies is_continuation_byte(
                            #[trigger] (rest + y)[j],
                        ) by {
                            assert((rest + y)[j] == all[j]);
                        }
                        lemma_overlong_run(rest + y);
                        lemma_blank_concat(checked, rest + y);
                    }
                }
                self.not_blank = true;
                return ;
            }
            self.pending = pending;
            return ;
        }
        let slice = pending.as_slice();
        let head = &slice[0..k];
        assert(head@ =~= piece);
        let piece_blank = is_blank(head);
        if !piece_blank {
            proof {
                assert forall|y: Seq<u8>| !is_blank_line(#[trigger] (self.seen@ + y)) by {
                    assert(self.seen@ + y =~= checked + (piece + (rest + y)));
                    assert((rest + y)[0] == all[k as int]);
                    lemma_blank_concat(piece, rest + y);
                    lemma_blank_concat(checked, piece + (rest + y));
                }
            }
            self.not_blank = true;
            return ;
        }
        let mut tail: Vec<u8> = Vec::new();
        let mut m: usize = k;
        while m < len
            invariant
                k <= m <= len,
                len == pending@.len(),
                all == pending@,
                tail@ =~= all.subrange(k as int, m as int),
            decreases len - m,
        {
            tail.push(pending[m]);
            m = m + 1;
        }
        proof {
            lemma_blank_concat(checked, piece);
            assert(checked + piece + rest =~= self.seen@);
            assert(tail@ =~= rest);
        }
        if tail.len() > 4 {
            proof {
                let c = checked + piece;
                assert forall|y: Seq<u8>| !is_blank_line(#[trigger] (self.seen@ + y)) by {
                    assert(self.seen@ + y =~= c + (rest + y));
                    assert forall|j: int| 1 <= j < 5 implies is_continuation_byte(
                        #[trigger] (rest + y)[j],
                    ) by {
                        assert((rest + y)[j] == all[k + j]);
                    }
                    lemma_overlong_run(rest + y);
                    lemma_blank_concat(c, rest + y);
                }
            }
            self.not_blank = true;
            return ;
        }
        self.pending = tail;
        self.checked = Ghost(checked + piece);
    }
}

} // verus!
