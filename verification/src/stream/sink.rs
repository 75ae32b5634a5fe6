//! Glue between a token stream, a `Filter` and an optional user callback.

use vstd::prelude::*;
use crate::stream::filter::{lemma_filter_conserves_text, push_step, Filter};
use crate::text::concat_all;

verus! {

/// Sink routes each decoded token piece through a `Filter`: it forwards only
/// safe-to-emit text to an optional user callback, accumulates the full
/// filtered text for the caller's return value, and reports when generation
/// should halt.
pub struct Sink<F> {
    f: Filter,
    user: Option<F>,
    buf: Vec<u8>,
}

impl<F: FnMut(&[u8]) -> bool> Sink<F> {
    /// The filter the pieces go through.
    pub closed spec fn filter(&self) -> Filter {
        self.f
    }

    /// The filtered text accumulated so far.
    pub closed spec fn text(&self) -> Seq<u8> {
        self.buf@
    }

    /// Whether a user callback is attached.
    pub closed spec fn has_user(&self) -> bool {
        self.user is Some
    }

    /// The attached callback, if any, may be called with any text.
    pub closed spec fn user_callable(&self) -> bool {
        match self.user {
            Some(u) => forall|x: &[u8]| #[trigger] u.requires((x,)),
            None => true,
        }
    }

    /// The attached callback, handed `text`, may answer `keep_going`.
    pub closed spec fn user_answers(&self, text: Seq<u8>, keep_going: bool) -> bool {
        match self.user {
            Some(u) => exists|x: &[u8]| x@ == text && #[trigger] u.ensures((x,), keep_going),
            None => false,
        }
    }

    /// Returns a Sink that filters against stops and forwards emitted text to
    /// `user` (which may be `None`). Empty stops means no stop sequences —
    /// only incomplete-UTF-8 hold-back applies.
    pub fn new(stops: Vec<Vec<u8>>, user: Option<F>) -> (s: Self)
        ensures
            s.filter().stops_view() == crate::text::byte_strings(stops@),
            s.filter().pending_view() == Seq::<Seq<u8>>::empty(),
            s.text() == Seq::<u8>::empty(),
            s.has_user() == (user is Some),
            user matches Some(u) ==> (forall|x: &[u8]| #[trigger] u.requires((x,))) ==> s.user_callable(),
            user is None ==> s.user_callable(),
    {
        Sink { f: Filter::new(stops), user, buf: Vec::new() }
    }

    /// Feeds one decoded piece. It accumulates and forwards the safe-to-emit
    /// text, and returns false when generation should halt — either because
    /// a stop sequence was reached or because the user callback returned
    /// false.
    pub fn on_token(&mut self, piece: &[u8]) -> (r: bool)
        requires
            old(self).user_callable(),
        ensures
            final(self).filter().stops_view() == old(self).filter().stops_view(),
            final(self).has_user() == old(self).has_user(),
            final(self).user_callable() == old(self).user_callable(),
            exists|out: Seq<u8>, stop: bool|
                {
                    &&& push_step(
                        old(self).filter().stops_view(),
                        old(self).filter().pending_view(),
                        piece@,
                        out,
                        stop,
                        final(self).filter().pending_view(),
                    )
                    &&& final(self).text() == old(self).text() + out
                    &&& (out.len() == 0 || !old(self).has_user()) ==> r == !stop
                    &&& (out.len() > 0 && old(self).has_user()) ==> exists|k: bool|
                        old(self).user_answers(out, k) && r == (k && !stop)
                },
    {
        let ghost s0 = *self;
        let (emit, stop) = self.f.push(piece);
        let ghost before = self.buf@;
        let ghost f0 = self.f;
        let ghost u0 = self.user;
        let mut result = !stop;
        let ghost mut verdict = true;
        if emit.len() > 0 {
            let mut i: usize = 0;
            while i < emit.len()
                invariant
                    i <= emit@.len(),
                    self.buf@ == before + emit@.subrange(0, i as int),
                    self.f == f0,
                    self.user == u0,
                decreases emit@.len() - i,
            {
                self.buf.push(emit[i]);
                i = i + 1;
                assert(emit@.subrange(0, i as int) =~= emit@.subrange(0, i - 1).push(emit@[i - 1]));
            }
            assert(emit@.subrange(0, emit@.len() as int) =~= emit@);
            let keep_going = match self.user.take() {
                Some(mut user) => {
                    let k = user(emit.as_slice());
                    proof {
                        assert(s0.user_answers(emit@, k));
                    }
                    self.user = Some(user);
                    k
                },
                None => true,
            };
            proof {
                verdict = keep_going;
            }
            if !keep_going {
                result = false;
            }
        } else {
            assert(before + emit@ =~= before);
        }
        proof {
            assert((emit@.len() > 0 && s0.has_user()) ==> s0.user_answers(emit@, verdict) && result == (verdict && !stop));
            assert(self.text() == old(self).text() + emit@);
            assert(push_step(old(self).filter().stops_view(), old(self).filter().pending_view(), piece@, emit@, stop, self.filter().pending_view()));
        }
        result
    }

    /// Flushes any text held at end-of-generation, forwards it to the user
    /// callback, and returns the full accumulated filtered text.
    pub fn finish(&mut self) -> (r: Vec<u8>)
        requires
            old(self).user_callable(),
        ensures
            r@ == old(self).text() + concat_all(old(self).filter().pending_view()),
            final(self).text() == r@,
            final(self).filter().pending_view() == Seq::<Seq<u8>>::empty(),
            final(self).filter().stops_view() == old(self).filter().stops_view(),
            final(self).has_user() == old(self).has_user(),
            final(self).user_callable() == old(self).user_callable(),
            concat_all(old(self).filter().pending_view()).len() > 0 && old(self).has_user() ==> exists|k: bool|
                old(self).user_answers(concat_all(old(self).filter().pending_view()), k),
    {
        let ghost start = *self;
        let rem = self.f.flush();
        if rem.len() > 0 {
            let ghost before = self.buf@;
            let ghost f0 = self.f;
            let ghost u0 = self.user;
            let mut i: usize = 0;
            while i < rem.len()
                invariant
                    i <= rem@.len(),
                    self.buf@ == before + rem@.subrange(0, i as int),
                    self.f == f0,
                    self.user == u0,
                decreases rem@.len() - i,
            {
                self.buf.push(rem[i]);
                i = i + 1;
                assert(rem@.subrange(0, i as int) =~= rem@.subrange(0, i - 1).push(rem@[i - 1]));
            }
            assert(rem@.subrange(0, rem@.len() as int) =~= rem@);
            let ghost s1 = *self;
            match self.user.take() {
                Some(mut user) => {
                    let k = user(rem.as_slice());
                    proof {
                        assert(s1.user_answers(rem@, k));
                        assert(s1.user == start.user);
                        assert(start.user_answers(rem@, k));
                    }
                    self.user = Some(user);
                },
                None => {},
            }
        } else {
            assert(self.buf@ + rem@ =~= self.buf@);
        }
        vstd::slice::slice_to_vec(self.buf.as_slice())
    }
}

/// Law: a run of a sink — `Sink::new`, then `on_token` on each piece, then
/// `finish` — returns every text the calls released, in order (that is the
/// sink's text), followed by the tail the filter still held; when no stop
/// sequence was reached, that is exactly the pieces fed to it. For the `i`-th call, `held[i]` and
/// `texts[i]` are the filter's held pieces and the sink's text before it,
/// and `outs[i]`, `stopped[i]` what that step released and whether it met a
/// stop; `texts[n] + concat_all(held[n])` is what `finish` returns.
pub proof fn lemma_sink_run_text(
    stops: Seq<Seq<u8>>,
    pieces: Seq<Seq<u8>>,
    outs: Seq<Seq<u8>>,
    stopped: Seq<bool>,
    held: Seq<Seq<Seq<u8>>>,
    texts: Seq<Seq<u8>>,
)
    requires
        outs.len() == pieces.len(),
        stopped.len() == pieces.len(),
        held.len() == pieces.len() + 1,
        texts.len() == pieces.len() + 1,
        held[0] == Seq::<Seq<u8>>::empty(),
        texts[0] == Seq::<u8>::empty(),
        forall|i: int|
            0 <= i < pieces.len() ==> push_step(stops, held[i], pieces[i], #[trigger] outs[i], stopped[i], held[i + 1])
                && texts[i + 1] == texts[i] + outs[i],
    ensures
        texts[pieces.len() as int] == concat_all(outs),
        (forall|i: int| 0 <= i < pieces.len() ==> !#[trigger] stopped[i]) ==> texts[pieces.len() as int]
            + concat_all(held[pieces.len() as int]) == concat_all(pieces),
    decreases pieces.len(),
{
    let n = pieces.len() as int;
    if n == 0 {
        assert(concat_all(outs) =~= Seq::<u8>::empty());
        assert(concat_all(pieces) =~= Seq::<u8>::empty());
        assert(concat_all(held[0]) =~= Seq::<u8>::empty());
        assert(texts[0] + concat_all(held[0]) =~= Seq::<u8>::empty());
        assert(concat_all(outs) =~= texts[0]);
    } else {
        lemma_sink_run_text(
            stops,
            pieces.drop_last(),
            outs.drop_last(),
            stopped.drop_last(),
            held.drop_last(),
            texts.drop_last(),
        );
        assert(texts.drop_last()[n - 1] == texts[n - 1]);
        assert(texts[n] == texts[n - 1] + outs[n - 1]);
        assert(concat_all(outs) == concat_all(outs.drop_last()) + outs[n - 1]);
        assert(texts[n] =~= concat_all(outs));
        if forall|i: int| 0 <= i < n ==> !#[trigger] stopped[i] {
            assert forall|i: int| 0 <= i < n implies push_step(stops, held[i], pieces[i], #[trigger] outs[i], false, held[i + 1]) by {
                assert(!stopped[i]);
            }
            lemma_filter_conserves_text(stops, pieces, outs, held);
        }
    }
}

} // verus!
