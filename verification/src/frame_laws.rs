//! How a pane is parted, what titles say, and how a language server is greeted.

use vstd::prelude::*;
use crate::bytes::{byte_at, byte_len};
use crate::effect::{Act, PtyInput};
use crate::geometry::FlexBox;
use crate::loader::FileKey;
use crate::lsp_start::{Greeting, GreetingStage, GreetingStep, StartInput, greeted};
use crate::number::decimal;
use crate::pane::{Pane, active_in};
use crate::pane_draw::{content_drawn, pane_title};
use crate::pane_manager::Window;
use crate::preview::file_in;
use crate::session_time::Nanos;
use crate::state::App;
use crate::terminal_pane::{terminal_in, terminal_title};
use crate::text::texts;
use crate::title_row::{fitting, padded, shown_title};

verus! {

/// Whether a box has room for a title and for content, and its cells can be counted.
pub open spec fn is_roomy(b: FlexBox) -> bool {
    let size = b.style_adjusted_bounds_size;
    &&& size.row_height >= 2 && size.col_width >= 2
    &&& b.style_adjusted_origin_pos.row_index + size.row_height <= u16::MAX
    &&& b.style_adjusted_origin_pos.col_index + size.col_width <= u16::MAX
}

/// Whether a pane has the rows below the first one of a box for its content.
pub open spec fn has_content_below_title(p: Pane, b: FlexBox) -> bool {
    let at = b.style_adjusted_origin_pos;
    let size = b.style_adjusted_bounds_size;
    &&& p.content_origin_row == at.row_index + 1
    &&& p.content_origin_col == at.col_index
    &&& p.content_row_count == size.row_height - 1
    &&& p.content_col_count == size.col_width
}

/// A preview has all rows below its title for its file, and all columns but the last, which is for
/// the scrollbar. The rows of a page are taken note of.
pub proof fn law_preview_lies_below_title(
    p: Pane,
    app: App,
    key: FileKey,
    b: FlexBox,
    focused: bool,
    now: Nanos,
)
    requires
        is_roomy(b),
        active_in(app, p.slot) == Some(Window::FilePreview(key)),
        file_in(app, p.id) == Some(key),
    ensures
        ({
            let after = p.drawn(app, b, focused, now);
            &&& has_content_below_title(after.pane, b)
            &&& after.pane.preview.content_origin_row == b.style_adjusted_origin_pos.row_index + 1
            &&& after.pane.preview.content_origin_col == b.style_adjusted_origin_pos.col_index
            &&& after.pane.preview.content_col_count == b.style_adjusted_bounds_size.col_width - 1
            &&& after.app.panes.state_of(Window::FilePreview(key)).page_size
                == b.style_adjusted_bounds_size.row_height - 1
            &&& after.acts.len() == 0
        }),
{
    reveal(pane_title);
    reveal(content_drawn);
}

/// A terminal has all rows below its title, and all columns, but for one for the scrollbar unless
/// its program has the alternate screen. Its program is told of its size where that has changed.
pub proof fn law_terminal_is_told_its_size(
    p: Pane,
    app: App,
    id: usize,
    b: FlexBox,
    focused: bool,
    now: Nanos,
)
    requires
        is_roomy(b),
        active_in(app, p.slot) == Some(Window::Terminal(id)),
        terminal_in(app, p.id) == Some(id),
        app.terminals.contains_key(id),
    ensures
        ({
            let after = p.drawn(app, b, focused, now);
            let size = after.app.terminals[id].last_size;
            let whole = b.style_adjusted_bounds_size;
            &&& has_content_below_title(after.pane, b)
            &&& after.pane.terminal.content_origin_row == b.style_adjusted_origin_pos.row_index + 1
            &&& after.pane.terminal.content_origin_col == b.style_adjusted_origin_pos.col_index
            &&& size.row_height == whole.row_height - 1
            &&& app.terminals[id].screen.alternate ==> size.col_width == whole.col_width
            &&& !app.terminals[id].screen.alternate ==> size.col_width == whole.col_width - 1
            &&& app.terminals[id].last_size == size ==> after.acts.len() == 0
            &&& app.terminals[id].last_size != size ==> after.acts == seq![
                Act::Pty { id, event: PtyInput::Resize(size) },
            ]
        }),
{
    reveal(pane_title);
    reveal(content_drawn);
}

/// A title that fits is shown as a whole, with a space on either side. Of any other as many
/// characters are shown as fit beside an ellipsis.
pub proof fn law_title_is_cut_to_fit(title: Seq<char>, width: int)
    requires
        0 < width,
    ensures
        ({
            let all = seq![' '] + title + seq![' '];
            let shown = shown_title(title, width);
            &&& byte_len(all) <= width ==> shown == all
            &&& byte_len(all) > width ==> {
                let n = shown.len() - 1;
                &&& 0 <= n < all.len()
                &&& shown.take(n) == all.take(n)
                &&& shown[n] == '…'
                &&& byte_at(all, n) <= width - 1
                &&& byte_at(all, n + 1) > width - 1
            }
        }),
{
    let all = padded(title);
    if byte_len(all) > width {
        lemma_longest_that_fits(all, all.len() as int, width - 1);
        let n = fitting(all, all.len() as int, width - 1);
        assert(shown_title(title, width).take(n) =~= all.take(n));
    }
}

proof fn lemma_longest_that_fits(text: Seq<char>, n: int, limit: int)
    requires
        0 <= n <= text.len(),
        0 <= limit,
        byte_at(text, n) > limit,
    ensures
        0 <= fitting(text, n, limit) < n,
        byte_at(text, fitting(text, n, limit)) <= limit,
        byte_at(text, fitting(text, n, limit) + 1) > limit,
    decreases n,
{
    assert(n > 0 && fitting(text, n, limit) == fitting(text, n - 1, limit));
    if byte_at(text, n - 1) > limit {
        lemma_longest_that_fits(text, n - 1, limit);
    }
}

/// The title of a terminal is the one that its program gave it, or its number. Behind it stands how
/// the program ended, where it has: the signal, or else the exit code.
pub proof fn law_terminal_title_tells_end(app: App, id: usize)
    requires
        app.terminals.contains_key(id),
    ensures
        ({
            let t = app.terminals[id];
            let base = match t.title {
                Some(title) => title,
                None => "Terminal "@ + decimal(id as int),
            };
            let shown = terminal_title(app, id);
            let n = base.len() as int;
            &&& n <= shown.len()
            &&& shown.take(n) == base
            &&& t.exit_signal is None && t.exit_code is None && !t.exited ==> shown == base
            &&& t.exit_signal matches Some(signal) ==> shown.skip(n) == seq![' ', '['] + signal
                + seq![']']
            &&& t.exit_signal is None ==> (t.exit_code matches Some(code) ==> shown.skip(n)
                == " [exit "@ + decimal(code as int) + seq![']'])
        }),
{
    reveal_strlit(" [");
    reveal_strlit("]");
    let t = app.terminals[id];
    let base = match t.title {
        Some(title) => title,
        None => "Terminal "@ + decimal(id as int),
    };
    let shown = terminal_title(app, id);
    let n = base.len() as int;
    assert(shown.take(n) =~= base);
    if let Some(signal) = t.exit_signal {
        assert(shown.skip(n) =~= seq![' ', '['] + signal + seq![']']);
    } else if let Some(code) = t.exit_code {
        assert(shown.skip(n) =~= " [exit "@ + decimal(code as int) + seq![']']);
    }
}

/// A server that answers the first request is ready with the kinds of tokens that it named, and
/// gives them for a range where it said so. What it says before that is passed over.
pub proof fn law_greeted_server_is_ready(before: Greeting, answer: Greeting)
    requires
        before.id != Some(0u64),
        answer.id == Some(0u64),
        answer.abilities is Some,
    ensures
        ({
            let (first, asked) = greeted(GreetingStage::Initializing, StartInput::Sent(true));
            let (second, passed) = greeted(first, StartInput::Message(Some(before)));
            let (third, told) = greeted(second, StartInput::Message(Some(answer)));
            let (fourth, ready) = greeted(third, StartInput::Sent(true));
            &&& asked == GreetingStep::Receive
            &&& passed == GreetingStep::Receive
            &&& told == GreetingStep::SendInitialized
            &&& fourth == GreetingStage::Over
            &&& ready matches GreetingStep::Ready { token_types, supports_range } && {
                match answer.abilities->0 {
                    Some(provider) => token_types == texts(provider.token_types@) && (
                    supports_range <==> provider.range == Some(true)),
                    None => token_types.len() == 0 && !supports_range,
                }
            }
        }),
{
}

} // verus!
