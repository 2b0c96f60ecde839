//! The SYCL chat model for dense and mixture-of-experts networks.

use vstd::prelude::*;

verus! {

/// A chat model that drives the compute-graph forward of a model `M` on an Intel SYCL device.
///
/// It keeps no state between turns: each turn prefills the whole rendered history, which the caller
/// hands over every time.
pub struct SyclDenseChat<M> {
    model: M,
}

impl<M> SyclDenseChat<M> {
    /// The model that renders and generates.
    pub closed spec fn model(self) -> M {
        self.model
    }

    /// A chat over `model`.
    pub fn new(model: M) -> (chat: Self)
        ensures
            chat.model() == model,
    {
        SyclDenseChat { model }
    }

    /// The model whose template renders the prompts.
    pub fn render_model(&self) -> (model: &M)
        ensures
            *model == self.model(),
    {
        &self.model
    }

    /// One turn: hands the prompt, the token budget, the request context and the caller's piece
    /// sink, as they are, to the model's own SYCL generation, and returns what that returns. The
    /// generation streams its text into the sink; the chat itself puts nothing there. The chat is
    /// left as it was.
    pub fn generate<R, P, S, G: FnOnce(&M, &str, usize, Option<&R>, P) -> S>(
        &mut self,
        prompt: &str,
        max_new: usize,
        req: Option<&R>,
        on_piece: P,
        generate_sycl: G,
    ) -> (stats: S)
        requires
            call_requires(generate_sycl, (&old(self).model(), prompt, max_new, req, on_piece)),
        ensures
            call_ensures(
                generate_sycl,
                (&old(self).model(), prompt, max_new, req, on_piece),
                stats,
            ),
            *final(self) == *old(self),
    {
        generate_sycl(&self.model, prompt, max_new, req, on_piece)
    }
}

} // verus!
