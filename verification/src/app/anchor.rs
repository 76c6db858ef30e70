//! A selection has its anchor exactly as long as a visual mode is on.
use vstd::prelude::*;
use crate::action::{DirectKind, Expr, LastChange};
use crate::app::eval::handle::Cmds;
use crate::app::eval::recounted;
use crate::app::Desk;
use crate::keys::{KeyCode, KeyEvent};
use crate::mode::Mode;
use crate::prompt::PromptOutcome;

verus! {

impl Desk {
    /// There is an anchor in the visual modes, and in no other.
    pub open spec fn anchored(self) -> bool {
        self.anchor is Some <==> self.mode.visual()
    }
}

proof fn lemma_search_anchored(desk: Desk, forward: bool)
    requires
        desk.anchored(),
    ensures
        desk.jump_search(forward).anchored(),
        desk.search_select(forward).anchored(),
        desk.search_word(forward).anchored(),
{
    reveal(Desk::jump_search);
    reveal(Desk::search_select);
    reveal(Desk::search_word);
}

proof fn lemma_run_cmds_anchored(desk: Desk, cmds: Cmds)
    requires
        desk.anchored(),
    ensures
        desk.run_cmds(cmds).0.anchored(),
    decreases cmds.len(),
{
    if cmds.len() > 0 {
        lemma_search_anchored(desk, true);
        lemma_search_anchored(desk, false);
        reveal(Desk::select_all);
        let d = desk.run_cmd(cmds[0]).0;
        assert(d.anchored());
        lemma_run_cmds_anchored(d, cmds.drop_first());
    }
}

proof fn lemma_expr_anchored(desk: Desk, e: Expr, rest: Seq<char>)
    requires
        desk.anchored(),
    ensures
        desk.expr(e, rest).0.anchored(),
{
    reveal(Desk::expr);
    let d = desk.with_doc(desk.doc.snapshot());
    assert(d.anchored());
    assert(desk.run_expr(e, rest).0.anchored());
    assert(d.run_expr(e, rest).0.anchored());
}

proof fn lemma_evaluate_anchored(desk: Desk, e: Expr, rest: Seq<char>)
    requires
        desk.anchored(),
    ensures
        desk.evaluate(e, rest).0.anchored(),
{
    match e {
        Expr::Direct { kind: DirectKind::RepeatLast, count } => {
            let meant = match desk.last_change {
                Some(LastChange::Expr(x)) => x,
                Some(LastChange::Insert { trigger, keys }) => trigger,
                None => e,
            };
            let (d, c) = desk.expr(recounted(meant, count), rest);
            lemma_expr_anchored(desk, recounted(meant, count), rest);
            lemma_run_cmds_anchored(d, c);
        },
        _ => {
            let (d, c) = desk.expr(e, rest);
            lemma_expr_anchored(desk, e, rest);
            assert(d.remembering(e, c).anchored());
            lemma_run_cmds_anchored(d.remembering(e, c), c);
        },
    }
}

proof fn lemma_insert_anchored(desk: Desk, key: KeyEvent, has_lsp: bool)
    requires
        desk.anchored(),
    ensures
        desk.insert_key(key, has_lsp).0.anchored(),
{
    reveal(Desk::noting);
    reveal(Desk::menu_updated);
    reveal(Desk::type_char);
    reveal(Desk::type_tab);
    reveal(Desk::accepted);
}

proof fn lemma_selection_anchored(desk: Desk)
    requires
        desk.anchored(),
    ensures
        desk.visual_yank().anchored(),
        desk.visual_delete().anchored(),
        desk.visual_change().anchored(),
        desk.visual_flip().anchored(),
        desk.visual_join().anchored(),
{
    reveal(Desk::visual_yank);
    reveal(Desk::visual_delete);
    reveal(Desk::visual_change);
    reveal(Desk::visual_flip);
    reveal(Desk::visual_join);
}

proof fn lemma_g_key_anchored(desk: Desk, code: KeyCode)
    requires
        desk.anchored(),
    ensures
        desk.visual_g_key(code).anchored(),
{
    reveal(Desk::visual_move);
    lemma_search_anchored(desk, true);
    lemma_search_anchored(desk, false);
}

proof fn lemma_plain_key_anchored(desk: Desk, key: KeyEvent)
    requires
        desk.anchored(),
        desk.mode.visual(),
    ensures
        desk.visual_plain_key(key).anchored(),
{
    lemma_selection_anchored(desk);
    lemma_search_anchored(desk, true);
    lemma_search_anchored(desk, false);
}

proof fn lemma_visual_anchored(desk: Desk, key: KeyEvent)
    requires
        desk.anchored(),
        desk.mode.visual(),
    ensures
        desk.visual_key(key).anchored(),
{
    reveal(Desk::visual_move);
    if desk.g_pending {
        lemma_g_key_anchored(Desk { g_pending: false, ..desk }, key.code);
    } else {
        lemma_plain_key_anchored(desk, key);
    }
}

/// Every key keeps the anchor together with the visual modes: a selection has
/// one, and outside them there is none.
pub proof fn law_keys_keep_anchored(desk: Desk, key: KeyEvent, has_lsp: bool)
    requires
        desk.anchored(),
    ensures
        desk.key(key, has_lsp).0.anchored(),
{
    match desk.mode {
        Mode::Insert => lemma_insert_anchored(desk, key, has_lsp),
        Mode::Normal => {
            let cleared = Desk { tokens: Seq::empty(), ..desk };
            assert forall|e: Expr, rest: Seq<char>| #[trigger] cleared.evaluate(e, rest).0.anchored() by {
                lemma_evaluate_anchored(cleared, e, rest);
            }
        },
        _ => lemma_visual_anchored(desk, key),
    }
}

/// So does what comes of a prompt.
pub proof fn law_prompts_keep_anchored(desk: Desk, o: PromptOutcome<Seq<char>>)
    requires
        desk.anchored(),
    ensures
        desk.prompted(o).0.anchored(),
{
    assert forall|e: Expr, rest: Seq<char>| #[trigger] desk.evaluate(e, rest).0.anchored() by {
        lemma_evaluate_anchored(desk, e, rest);
    }
    if let PromptOutcome::Search { forward, query } = o {
        lemma_search_anchored(Desk { query, forward, ..desk }, forward);
    }
}

} // verus!
