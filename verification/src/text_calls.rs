//! What the calls that refuse, report and delegate give, over their arguments and results alone.
//!
//! Each law takes a call as its hypothesis: `call_ensures(f, args, result)` says that `result` is
//! something `f` may answer on `args`.

use crate::chat::SyclDenseChat;
use crate::dsv4_plan::PlanError;
use crate::dsv4_tiers::{decimal, digit, refuse_compressed_layer, CompressedLayer};
use crate::error::{backend, Error};
use vstd::prelude::*;

verus! {

/// Every model can be asked about, and every refusal and error read.
pub proof fn law_every_model_is_asked(
    ratios: &[u32],
    refusal: &CompressedLayer,
    plan_refusal: &PlanError,
    e: &Error,
    message: &str,
)
    ensures
        call_requires(refuse_compressed_layer, (ratios,)),
        call_requires(CompressedLayer::to_string, (refusal,)),
        call_requires(PlanError::to_string, (plan_refusal,)),
        call_requires(Error::to_string, (e,)),
        call_requires(backend, (message,)),
{
}

/// A model passes exactly where every layer has ratio zero.
pub proof fn law_pure_window_passes(ratios: &[u32], r: Result<(), CompressedLayer>)
    requires
        call_ensures(refuse_compressed_layer, (ratios,), r),
    ensures
        r is Ok <==> forall|l: int| 0 <= l < ratios@.len() ==> ratios@[l] == 0,
{
}

/// A model with a compressed layer is refused with the first such layer and its ratio, whatever the
/// ratio is.
pub proof fn law_first_compressed_layer_is_named(
    ratios: &[u32],
    r: Result<(), CompressedLayer>,
    l: int,
)
    requires
        call_ensures(refuse_compressed_layer, (ratios,), r),
        0 <= l < ratios@.len(),
        ratios@[l] != 0,
        forall|k: int| 0 <= k < l ==> ratios@[k] == 0,
    ensures
        r is Err,
        r->Err_0.layer == l,
        r->Err_0.ratio == ratios@[l],
{
    assert(r is Err);
    assert(ratios@[r->Err_0.layer as int] != 0);
}

/// What a refusal says: the layer and, twice, the ratio, each as its decimal numeral, in a text
/// that speaks of the CSA compressor and the indexer at ratio four and of the HCA compressor at
/// every other. A numeral is made of digits, has no leading zero, and reads as its number.
pub proof fn law_refusal_text(
    refusal: &CompressedLayer,
    s: String,
) -> (numerals: (Seq<char>, Seq<char>))
    requires
        call_ensures(CompressedLayer::to_string, (refusal,), s),
    ensures
        ({
            let layer = numerals.0;
            let ratio = numerals.1;
            &&& layer.len() >= 1 && ratio.len() >= 1
            &&& forall|k: int| 0 <= k < layer.len() ==> '0' <= #[trigger] layer[k] <= '9'
            &&& forall|k: int| 0 <= k < ratio.len() ==> '0' <= #[trigger] ratio[k] <= '9'
            &&& layer.len() > 1 ==> layer[0] != '0'
            &&& ratio.len() > 1 ==> ratio[0] != '0'
            &&& layer.fold_left(0int, |n: int, c: char| 10 * n + (c as int - '0' as int))
                == refusal.layer
            &&& ratio.fold_left(0int, |n: int, c: char| 10 * n + (c as int - '0' as int))
                == refusal.ratio
            &&& refusal.ratio == 4 ==> s@ == "arch=deepseek4 (DeepSeek V4) layer "@ + layer
                + " has compress_ratio "@ + ratio
                + ": only the ratio-0 tier (pure sliding window) generates. A compressed layer needs the "@
                + "CSA"@ + " compressor over blocks of "@ + ratio
                + " tokens, its persistent compressor state, the CSA/HCA block cache and the lightning indexer with its own compressor + LID cache"@
                + " — none of which is implemented. See docs/deepseek.md § Stage 4."@
            &&& refusal.ratio != 4 ==> s@ == "arch=deepseek4 (DeepSeek V4) layer "@ + layer
                + " has compress_ratio "@ + ratio
                + ": only the ratio-0 tier (pure sliding window) generates. A compressed layer needs the "@
                + "HCA"@ + " compressor over blocks of "@ + ratio
                + " tokens, its persistent compressor state and the CSA/HCA block cache"@
                + " — none of which is implemented. See docs/deepseek.md § Stage 4."@
        }),
{
    let read = |n: int, c: char| 10 * n + (c as int - '0' as int);
    lemma_decimal(refusal.layer as nat, read);
    lemma_decimal(refusal.ratio as nat, read);
    (decimal(refusal.layer as nat), decimal(refusal.ratio as nat))
}

/// A digit is one character, as far past `0` as it counts.
proof fn lemma_digit(d: int)
    requires
        0 <= d < 10,
    ensures
        digit(d)@.len() == 1,
        digit(d)@[0] as int == '0' as int + d,
{
    reveal_strlit("0");
    reveal_strlit("1");
    reveal_strlit("2");
    reveal_strlit("3");
    reveal_strlit("4");
    reveal_strlit("5");
    reveal_strlit("6");
    reveal_strlit("7");
    reveal_strlit("8");
    reveal_strlit("9");
}

/// The numeral of a number is made of digits, has no leading zero, and reads as the number.
proof fn lemma_decimal(n: nat, read: spec_fn(int, char) -> int)
    requires
        forall|v: int, c: char| #[trigger] read(v, c) == 10 * v + (c as int - '0' as int),
    ensures
        decimal(n).len() >= 1,
        forall|k: int| 0 <= k < decimal(n).len() ==> '0' <= #[trigger] decimal(n)[k] <= '9',
        decimal(n).len() > 1 ==> decimal(n)[0] != '0',
        n > 0 ==> decimal(n)[0] != '0',
        decimal(n).fold_left(0int, read) == n,
    decreases n,
{
    reveal_with_fuel(Seq::fold_left, 2);
    if n < 10 {
        lemma_digit(n as int);
        assert(decimal(n).drop_last() =~= Seq::<char>::empty());
    } else {
        lemma_decimal(n / 10, read);
        lemma_digit((n % 10) as int);
        assert(decimal(n).drop_last() =~= decimal(n / 10));
    }
}

/// The text of the plan builder's refusal.
pub proof fn law_plan_refusal_text(refusal: &PlanError, s: String)
    requires
        call_ensures(PlanError::to_string, (refusal,), s),
    ensures
        s@ == "DSV4 single compressed stream cannot serve multiple sequences"@,
{
}

/// A backend error reads as the message it was made from.
pub proof fn law_backend_error_reads_as_its_message(message: &str, e: Error, s: String)
    requires
        call_ensures(backend, (message,), e),
        call_ensures(Error::to_string, (&e,), s),
    ensures
        s@ == message@,
{
}

/// A chat renders with the model it was made over.
pub proof fn law_chat_renders_with_its_model<M>(model: M, chat: SyclDenseChat<M>, rendering: &M)
    requires
        call_ensures(SyclDenseChat::<M>::new, (model,), chat),
        call_ensures(SyclDenseChat::<M>::render_model, (&chat,), rendering),
    ensures
        *rendering == model,
{
}

/// A turn can be taken wherever the generation can be called on the model that the chat renders
/// with and on what the turn is given.
pub proof fn law_turn_is_taken<M, R, P, S, G: FnOnce(&M, &str, usize, Option<&R>, P) -> S>(
    chat: &mut SyclDenseChat<M>,
    prompt: &str,
    max_new: usize,
    req: Option<&R>,
    on_piece: P,
    generate_sycl: G,
    rendering: &M,
)
    requires
        call_ensures(SyclDenseChat::<M>::render_model, (&*old(chat),), rendering),
        call_requires(generate_sycl, (rendering, prompt, max_new, req, on_piece)),
    ensures
        call_requires(
            SyclDenseChat::<M>::generate::<R, P, S, G>,
            (chat, prompt, max_new, req, on_piece, generate_sycl),
        ),
{
}

/// A turn answers what the generation answers on the model that the chat renders with and on the
/// prompt, the budget, the request and the sink that the turn was given, and leaves the chat as it
/// was.
pub proof fn law_turn<M, R, P, S, G: FnOnce(&M, &str, usize, Option<&R>, P) -> S>(
    chat: &mut SyclDenseChat<M>,
    prompt: &str,
    max_new: usize,
    req: Option<&R>,
    on_piece: P,
    generate_sycl: G,
    stats: S,
    rendering: &M,
)
    requires
        call_ensures(
            SyclDenseChat::<M>::generate::<R, P, S, G>,
            (chat, prompt, max_new, req, on_piece, generate_sycl),
            stats,
        ),
        call_ensures(SyclDenseChat::<M>::render_model, (&*old(chat),), rendering),
    ensures
        call_ensures(generate_sycl, (rendering, prompt, max_new, req, on_piece), stats),
        *final(chat) == *old(chat),
{
}

} // verus!
