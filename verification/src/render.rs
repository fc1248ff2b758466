//! ANSI renderer: turns dirty zones into the escape-sequence frame written to the
//! terminal. Each zone is drawn line by line at its rectangle, every line padded or cut
//! to the zone's width.
use vstd::prelude::*;

use crate::cursor::{csi, move_to};
use crate::registry::{ZoneId, ZoneState};
use crate::text::{chars_of, decimal, push_char, push_chars};

verus! {

/// Renderer parameters.
#[derive(Debug, Clone)]
pub struct RendererSettings {
    /// Cursor position (0-based row and column) restored after each frame.
    pub restore_cursor: Option<(u16, u16)>,
    /// Cursor visibility requested by the runtime.
    pub cursor_visible: Option<bool>,
}

impl Default for RendererSettings {
    fn default() -> (r: Self)
        ensures
            r.restore_cursor is None,
            r.cursor_visible is None,
    {
        RendererSettings { restore_cursor: None, cursor_visible: None }
    }
}

/// ANSI escape code renderer.
pub struct AnsiRenderer {
    settings: RendererSettings,
}

/// `n` spaces.
pub open spec fn spaces(n: nat) -> Seq<char> {
    Seq::new(n, |i: int| ' ')
}

/// `line` padded with spaces, or cut, to exactly `width` cells.
pub open spec fn fit_line(line: Seq<char>, width: nat) -> Seq<char> {
    if line.len() <= width {
        line + spaces((width - line.len()) as nat)
    } else {
        line.take(width as int)
    }
}

/// Progress of the wrapper through a text: finished lines, the line being filled,
/// and whether the current source line held any character.
pub struct WrapState {
    pub lines: Seq<Seq<char>>,
    pub current: Seq<char>,
    pub raw_nonempty: bool,
}

/// Lines produced when a source line ends: an empty source line gives one empty line,
/// otherwise the partly filled line, if any.
pub open spec fn wrap_finish(st: WrapState) -> Seq<Seq<char>> {
    if !st.raw_nonempty {
        st.lines.push(Seq::empty())
    } else if st.current.len() > 0 {
        st.lines.push(st.current)
    } else {
        st.lines
    }
}

/// One character of wrapping at `width`: a newline ends the source line; a space at the
/// start of an output line is dropped; a line is emitted as soon as it holds `width`
/// characters.
pub open spec fn wrap_step(st: WrapState, ch: char, width: nat) -> WrapState {
    if ch == '\n' {
        WrapState { lines: wrap_finish(st), current: Seq::empty(), raw_nonempty: false }
    } else if st.current.len() == 0 && ch == ' ' {
        WrapState { raw_nonempty: true, ..st }
    } else if st.current.len() + 1 == width {
        WrapState { lines: st.lines.push(st.current.push(ch)), current: Seq::empty(), raw_nonempty: true }
    } else {
        WrapState { lines: st.lines, current: st.current.push(ch), raw_nonempty: true }
    }
}

/// Wrapping state after the first `i` characters of `text`.
pub open spec fn wrap_fold(text: Seq<char>, width: nat, i: nat) -> WrapState
    decreases i,
{
    if i == 0 {
        WrapState { lines: Seq::empty(), current: Seq::empty(), raw_nonempty: false }
    } else {
        wrap_step(wrap_fold(text, width, (i - 1) as nat), text[i - 1], width)
    }
}

/// `text` wrapped greedily to `width` cells per line; no lines for width zero.
pub open spec fn wrapped(text: Seq<char>, width: nat) -> Seq<Seq<char>> {
    if width == 0 {
        Seq::empty()
    } else {
        wrap_finish(wrap_fold(text, width, text.len()))
    }
}

/// `s` without one trailing carriage return.
pub open spec fn strip_cr(s: Seq<char>) -> Seq<char> {
    if s.len() > 0 && s.last() == '\r' {
        s.drop_last()
    } else {
        s
    }
}

/// Finished lines and the current line after the first `i` characters of `text`.
pub open spec fn lines_fold(text: Seq<char>, i: nat) -> (Seq<Seq<char>>, Seq<char>)
    decreases i,
{
    if i == 0 {
        (Seq::empty(), Seq::empty())
    } else {
        let prev = lines_fold(text, (i - 1) as nat);
        if text[i - 1] == '\n' {
            (prev.0.push(strip_cr(prev.1)), Seq::empty())
        } else {
            (prev.0, prev.1.push(text[i - 1]))
        }
    }
}

/// The lines of `text` as `str::lines` gives them: split at newlines, a carriage return
/// before a newline dropped, no final empty line after a trailing newline.
pub open spec fn text_lines(text: Seq<char>) -> Seq<Seq<char>> {
    let st = lines_fold(text, text.len());
    if st.1.len() > 0 {
        st.0.push(st.1)
    } else {
        st.0
    }
}

/// Lines a zone shows before fitting: its content verbatim when pre-rendered, else
/// wrapped to the zone's width.
pub open spec fn zone_lines(state: ZoneState) -> Seq<Seq<char>> {
    if state.is_pre_rendered {
        text_lines(state.content@)
    } else {
        wrapped(state.content@, state.rect.width as nat)
    }
}

/// Row `off` of a zone: the cursor move to it, then the line fitted to the width
/// (an empty line past the end of the content).
pub open spec fn zone_row(state: ZoneState, off: int) -> Seq<char> {
    let lines = zone_lines(state);
    let line = if off < lines.len() {
        lines[off]
    } else {
        Seq::<char>::empty()
    };
    csi() + decimal((state.rect.y + off + 1) as nat) + seq![';'] + decimal(
        (state.rect.x + 1) as nat,
    ) + seq!['H'] + fit_line(line, state.rect.width as nat)
}

/// The first `k` rows of a zone.
pub open spec fn zone_rows(state: ZoneState, k: nat) -> Seq<char>
    decreases k,
{
    if k == 0 {
        Seq::empty()
    } else {
        zone_rows(state, (k - 1) as nat) + zone_row(state, k - 1)
    }
}

/// All rows of a zone; nothing for an empty rectangle.
pub open spec fn zone_block(state: ZoneState) -> Seq<char> {
    if state.rect.width == 0 || state.rect.height == 0 {
        Seq::empty()
    } else {
        zone_rows(state, state.rect.height as nat)
    }
}

/// Blocks of the first `k` dirty zones.
pub open spec fn zone_blocks(dirty: Seq<(String, ZoneState)>, k: nat) -> Seq<char>
    decreases k,
{
    if k == 0 {
        Seq::empty()
    } else {
        zone_blocks(dirty, (k - 1) as nat) + zone_block(dirty[k - 1].1)
    }
}

/// The cursor restore sequence (1-based), if a position is set.
pub open spec fn restore_text(restore: Option<(u16, u16)>) -> Seq<char> {
    match restore {
        Some((row, col)) => csi() + decimal((row + 1) as nat) + seq![';'] + decimal(
            (col + 1) as nat,
        ) + seq!['H'],
        None => Seq::empty(),
    }
}

/// A whole frame: every dirty zone in order, then the cursor restore.
pub open spec fn frame_text(dirty: Seq<(String, ZoneState)>, restore: Option<(u16, u16)>) -> Seq<
    char,
> {
    zone_blocks(dirty, dirty.len()) + restore_text(restore)
}

/// A zone can be drawn without its row or column numbers leaving 16 bits.
pub open spec fn drawable(state: ZoneState) -> bool {
    state.rect.width == 0 || state.rect.height == 0 || (state.rect.y + state.rect.height
        <= u16::MAX && state.rect.x < u16::MAX)
}

/// `text` wrapped greedily to `width` cells per line: each source line (split at `\n`)
/// is cut into lines of `width` characters, dropping spaces at the start of each output
/// line; an empty source line gives an empty line.
pub fn wrap_to_width(content: &str, width: u16) -> (r: Vec<String>)
    ensures
        r@.map_values(|s: String| s@) == wrapped(content@, width as nat),
        forall|i: int| 0 <= i < r.len() ==> (#[trigger] r@[i])@.len() <= width,
{
    let ghost w = width as nat;
    let mut lines: Vec<String> = Vec::new();
    if width == 0 {
        assert(lines@.map_values(|s: String| s@) =~= wrapped(content@, w));
        return lines;
    }
    let chars = chars_of(content);
    let n = chars.len();
    let mut current = String::new();
    let mut cur_len: usize = 0;
    let mut raw_nonempty = false;
    let mut i: usize = 0;
    while i < n
        invariant
            n == chars.len(),
            chars@ == content@,
            w == width as nat,
            width > 0,
            i <= n,
            cur_len == current@.len(),
            cur_len < width,
            lines@.map_values(|s: String| s@) == wrap_fold(content@, w, i as nat).lines,
            current@ == wrap_fold(content@, w, i as nat).current,
            raw_nonempty == wrap_fold(content@, w, i as nat).raw_nonempty,
            forall|j: int| 0 <= j < lines.len() ==> (#[trigger] lines@[j])@.len() <= width,
        decreases n - i,
    {
        let ch = chars[i];
        let ghost prev_lines = lines@;
        if ch == '\n' {
            if !raw_nonempty {
                lines.push(String::new());
            } else if cur_len > 0 {
                lines.push(current);
            }
            current = String::new();
            cur_len = 0;
            raw_nonempty = false;
        } else if cur_len == 0 && ch == ' ' {
            raw_nonempty = true;
        } else {
            raw_nonempty = true;
            push_char(&mut current, ch);
            cur_len += 1;
            if cur_len == width as usize {
                lines.push(current);
                current = String::new();
                cur_len = 0;
            }
        }
        assert(lines@.map_values(|s: String| s@) =~= wrap_fold(content@, w, (i + 1) as nat).lines);
        i += 1;
    }
    if !raw_nonempty {
        lines.push(String::new());
    } else if cur_len > 0 {
        lines.push(current);
    }
    assert(lines@.map_values(|s: String| s@) =~= wrapped(content@, w));
    lines
}

/// The lines of `text` as `str::lines` gives them.
fn split_lines(text: &str) -> (r: Vec<Vec<char>>)
    ensures
        r@.map_values(|v: Vec<char>| v@) == text_lines(text@),
{
    let chars = chars_of(text);
    let n = chars.len();
    let mut lines: Vec<Vec<char>> = Vec::new();
    let mut current: Vec<char> = Vec::new();
    let mut i: usize = 0;
    while i < n
        invariant
            n == chars.len(),
            chars@ == text@,
            i <= n,
            lines@.map_values(|v: Vec<char>| v@) == lines_fold(text@, i as nat).0,
            current@ == lines_fold(text@, i as nat).1,
        decreases n - i,
    {
        let ch = chars[i];
        if ch == '\n' {
            let len = current.len();
            if len > 0 && current[len - 1] == '\r' {
                current.pop();
            }
            lines.push(current);
            current = Vec::new();
        } else {
            current.push(ch);
        }
        assert(lines@.map_values(|v: Vec<char>| v@) =~= lines_fold(text@, (i + 1) as nat).0);
        i += 1;
    }
    if current.len() > 0 {
        lines.push(current);
    }
    assert(lines@.map_values(|v: Vec<char>| v@) =~= text_lines(text@));
    lines
}

/// Pads `line` with spaces, or cuts it, to exactly `width` cells.
pub fn pad_line(line: &mut String, width: u16)
    ensures
        final(line)@ == fit_line(old(line)@, width as nat),
{
    let chars = chars_of(line.as_str());
    let n = chars.len();
    let keep = if n < width as usize {
        n
    } else {
        width as usize
    };
    let mut out = String::new();
    let mut i: usize = 0;
    while i < keep
        invariant
            keep <= n,
            n == chars.len(),
            i <= keep,
            out@ == chars@.take(i as int),
        decreases keep - i,
    {
        push_char(&mut out, chars[i]);
        assert(chars@.take(i as int + 1) == chars@.take(i as int).push(chars@[i as int]));
        i += 1;
    }
    let mut filled = keep;
    while filled < width as usize
        invariant
            keep <= filled <= width || (filled == keep && keep > width),
            out@ == chars@.take(keep as int) + spaces((filled - keep) as nat),
        decreases width - filled,
    {
        push_char(&mut out, ' ');
        assert(spaces((filled + 1 - keep) as nat) =~= spaces((filled - keep) as nat).push(' '));
        filled += 1;
    }
    proof {
        if n <= width {
            assert(chars@.take(keep as int) == chars@);
        } else {
            assert(spaces(0) =~= Seq::<char>::empty());
        }
    }
    assert(out@ =~= fit_line(old(line)@, width as nat));
    *line = out;
}

/// Appends the block of one zone to `out`.
fn render_zone(out: &mut String, state: &ZoneState)
    requires
        drawable(*state),
    ensures
        final(out)@ == old(out)@ + zone_block(*state),
{
    let x = state.rect.x;
    let y = state.rect.y;
    let width = state.rect.width;
    let height = state.rect.height;
    if width == 0 || height == 0 {
        assert(zone_block(*state) =~= Seq::<char>::empty());
        return;
    }
    let lines: Vec<Vec<char>> = if state.is_pre_rendered {
        split_lines(state.content.as_str())
    } else {
        let wrapped_lines = wrap_to_width(state.content.as_str(), width);
        let mut v: Vec<Vec<char>> = Vec::new();
        let mut j: usize = 0;
        while j < wrapped_lines.len()
            invariant
                j <= wrapped_lines.len(),
                v.len() == j,
                forall|m: int| 0 <= m < j ==> (#[trigger] v@[m])@ == wrapped_lines@[m]@,
            decreases wrapped_lines.len() - j,
        {
            v.push(chars_of(wrapped_lines[j].as_str()));
            j += 1;
        }
        assert(v@.map_values(|c: Vec<char>| c@) =~= wrapped_lines@.map_values(|s: String| s@));
        v
    };
    let ghost zl = zone_lines(*state);
    assert(lines@.map_values(|c: Vec<char>| c@) == zl);
    let ghost start = out@;
    let mut off: u16 = 0;
    while off < height
        invariant
            off <= height,
            height == state.rect.height,
            width == state.rect.width,
            x == state.rect.x,
            y == state.rect.y,
            height > 0 && width > 0,
            drawable(*state),
            lines@.map_values(|c: Vec<char>| c@) == zone_lines(*state),
            out@ == start + zone_rows(*state, off as nat),
        decreases height - off,
    {
        let mv = move_to(y + off + 1, x + 1);
        out.append(mv.as_str());
        let mut line: String = String::new();
        if (off as usize) < lines.len() {
            push_chars(&mut line, &lines[off as usize]);
        }
        assert(line@ == (if (off as int) < zone_lines(*state).len() {
            zone_lines(*state)[off as int]
        } else {
            Seq::<char>::empty()
        }));
        pad_line(&mut line, width);
        out.append(line.as_str());
        assert(out@ =~= start + zone_rows(*state, (off + 1) as nat));
        off += 1;
    }
}

impl AnsiRenderer {
    /// The renderer's parameters.
    pub closed spec fn settings(&self) -> RendererSettings {
        self.settings
    }

    pub fn new(settings: RendererSettings) -> (r: Self)
        ensures
            r.settings() == settings,
    {
        AnsiRenderer { settings }
    }

    /// A renderer with default settings: no cursor restore, no visibility request.
    pub fn with_default() -> (r: Self)
        ensures
            r.settings().restore_cursor is None,
            r.settings().cursor_visible is None,
    {
        AnsiRenderer::new(RendererSettings::default())
    }

    /// The cursor position restored after each frame.
    pub fn restore_cursor(&self) -> (r: Option<(u16, u16)>)
        ensures
            r == self.settings().restore_cursor,
    {
        self.settings.restore_cursor
    }

    /// Mutable access to the renderer's parameters.
    pub fn settings_mut(&mut self) -> (r: &mut RendererSettings)
        ensures
            *r == old(self).settings(),
            final(self).settings() == *final(r),
    {
        &mut self.settings
    }

    /// The frame for `dirty`: each zone drawn in order, then the cursor moved to the
    /// restore position, if set.
    pub fn frame(&self, dirty: &Vec<(ZoneId, ZoneState)>) -> (r: String)
        requires
            forall|i: int| 0 <= i < dirty.len() ==> drawable((#[trigger] dirty@[i]).1),
            self.settings().restore_cursor matches Some((row, col)) ==> row < u16::MAX && col
                < u16::MAX,
        ensures
            r@ == frame_text(dirty@, self.settings().restore_cursor),
    {
        let mut out = String::new();
        let n = dirty.len();
        let mut i: usize = 0;
        while i < n
            invariant
                n == dirty.len(),
                i <= n,
                forall|j: int| 0 <= j < dirty.len() ==> drawable((#[trigger] dirty@[j]).1),
                out@ == zone_blocks(dirty@, i as nat),
            decreases n - i,
        {
            render_zone(&mut out, &dirty[i].1);
            i += 1;
        }
        match self.settings.restore_cursor {
            Some((row, col)) => {
                let mv = move_to(row + 1, col + 1);
                out.append(mv.as_str());
            },
            None => {},
        }
        assert(out@ =~= frame_text(dirty@, self.settings().restore_cursor));
        out
    }
}

/// `line` occurs in `text` as one run of consecutive characters.
pub open spec fn is_piece_of(line: Seq<char>, text: Seq<char>) -> bool {
    exists|j: int| 0 <= j && j + line.len() <= text.len() && #[trigger] text.subrange(j, j + line.len()) == line
}

/// A line the wrapper may emit for `text`: a run of consecutive characters of `text`
/// without newline and not starting with a space.
pub open spec fn wrap_piece(line: Seq<char>, text: Seq<char>) -> bool {
    &&& is_piece_of(line, text)
    &&& line.len() > 0 ==> line[0] != ' '
    &&& forall|k: int| 0 <= k < line.len() ==> #[trigger] line[k] != '\n'
}

/// The empty line is a run of any text.
proof fn lemma_empty_piece(text: Seq<char>)
    ensures
        is_piece_of(Seq::<char>::empty(), text),
{
    let e = Seq::<char>::empty();
    assert(text.subrange(0, 0 + e.len() as int) =~= e);
}

/// While wrapping, the line being filled is the run of characters just read, and every
/// finished line is a run of the text.
proof fn lemma_wrap_fold_pieces(text: Seq<char>, width: nat, i: nat)
    requires
        width > 0,
        i <= text.len(),
    ensures
        ({
            let st = wrap_fold(text, width, i);
            &&& st.current.len() <= i
            &&& st.current == text.subrange(i - st.current.len(), i as int)
            &&& wrap_piece(st.current, text)
            &&& forall|k: int| 0 <= k < st.lines.len() ==> wrap_piece(#[trigger] st.lines[k], text)
        }),
    decreases i,
{
    let st = wrap_fold(text, width, i);
    lemma_empty_piece(text);
    if i == 0 {
        assert(text.subrange(0, 0) =~= st.current);
    } else {
        let i1 = (i - 1) as nat;
        lemma_wrap_fold_pieces(text, width, i1);
        let prev = wrap_fold(text, width, i1);
        let ch = text[i1 as int];
        let ext = prev.current.push(ch);
        let j = i1 - prev.current.len();
        assert(ext =~= text.subrange(j, i as int));
        assert(text.subrange(j, j + ext.len()) == ext);
        assert(text.subrange(j, j + prev.current.len()) == prev.current);
        assert(is_piece_of(prev.current, text));
        assert(is_piece_of(ext, text));
        assert(text.subrange(i as int, i as int) =~= Seq::<char>::empty());
        if ch != '\n' && !(prev.current.len() == 0 && ch == ' ') {
            assert(ext.len() > 0 ==> ext[0] != ' ') by {
                if prev.current.len() > 0 {
                    assert(ext[0] == prev.current[0]);
                }
            }
            assert forall|k: int| 0 <= k < ext.len() implies #[trigger] ext[k] != '\n' by {
                if k < prev.current.len() {
                    assert(ext[k] == prev.current[k]);
                }
            }
        }
        assert forall|k: int| 0 <= k < st.lines.len() implies wrap_piece(#[trigger] st.lines[k], text) by {
            if k < prev.lines.len() {
                assert(st.lines[k] == prev.lines[k]);
            }
        }
    }
}

/// Every line wrapping gives is a run of consecutive characters of the text, holds no
/// newline, does not start with a space, and fits the width: wrapping cuts the text
/// and drops spaces only where a line would start.
pub proof fn lemma_wrapped_lines_are_pieces(text: Seq<char>, width: nat)
    ensures
        forall|k: int|
            0 <= k < wrapped(text, width).len() ==> wrap_piece(#[trigger] wrapped(text, width)[k], text)
                && wrapped(text, width)[k].len() <= width,
{
    if width > 0 {
        lemma_wrap_fold_pieces(text, width, text.len());
        lemma_wrap_fold_short(text, width, text.len());
        let st = wrap_fold(text, width, text.len());
        lemma_empty_piece(text);
        assert forall|k: int| 0 <= k < wrapped(text, width).len() implies wrap_piece(
            #[trigger] wrapped(text, width)[k],
            text,
        ) && wrapped(text, width)[k].len() <= width by {
            if k < st.lines.len() {
                assert(wrapped(text, width)[k] == st.lines[k]);
            }
        }
    }
}

/// Lines of the wrapping state never exceed the width, and the line being filled
/// stays below it.
proof fn lemma_wrap_fold_short(text: Seq<char>, width: nat, i: nat)
    requires
        width > 0,
        i <= text.len(),
    ensures
        wrap_fold(text, width, i).current.len() < width,
        forall|k: int|
            0 <= k < wrap_fold(text, width, i).lines.len() ==> (#[trigger] wrap_fold(text, width, i).lines[k]).len()
                <= width,
    decreases i,
{
    if i > 0 {
        lemma_wrap_fold_short(text, width, (i - 1) as nat);
        let prev = wrap_fold(text, width, (i - 1) as nat);
        let st = wrap_fold(text, width, i);
        assert forall|k: int| 0 <= k < st.lines.len() implies (#[trigger] st.lines[k]).len() <= width by {
            if k < prev.lines.len() {
                assert(st.lines[k] == prev.lines[k]);
            }
        }
    }
}

/// Text of one source line that fits the width and does not start with a space comes
/// back as it is, as a single line: no character of it, spaces included, is dropped.
pub proof fn lemma_wrap_fitting_line(text: Seq<char>, width: nat)
    requires
        0 < text.len() <= width,
        text[0] != ' ',
        forall|k: int| 0 <= k < text.len() ==> #[trigger] text[k] != '\n',
    ensures
        wrapped(text, width) == seq![text],
{
    lemma_wrap_fold_fitting(text, width, text.len());
    let st = wrap_fold(text, width, text.len());
    assert(text.take(text.len() as int) =~= text);
    if text.len() == width {
        assert(wrap_finish(st) =~= seq![text]);
    } else {
        assert(wrap_finish(st) =~= seq![text]);
    }
}

/// The wrapping state of a fitting line: everything read so far is in the line being
/// filled, until the width is reached and the line is emitted whole.
proof fn lemma_wrap_fold_fitting(text: Seq<char>, width: nat, i: nat)
    requires
        0 < text.len() <= width,
        text[0] != ' ',
        forall|k: int| 0 <= k < text.len() ==> #[trigger] text[k] != '\n',
        i <= text.len(),
    ensures
        ({
            let st = wrap_fold(text, width, i);
            &&& st.raw_nonempty == (i > 0)
            &&& if i == width {
                st.lines == seq![text.take(i as int)] && st.current.len() == 0
            } else {
                st.lines.len() == 0 && st.current == text.take(i as int)
            }
        }),
    decreases i,
{
    if i > 0 {
        let i1 = (i - 1) as nat;
        lemma_wrap_fold_fitting(text, width, i1);
        let ch = text[i1 as int];
        assert(ch != '\n');
        assert(text.take(i as int) =~= text.take(i1 as int).push(ch));
        if i1 == 0 {
            assert(ch != ' ');
        }
    }
}

/// Whether wrapping keeps `c` wherever it stands: every character but spaces and
/// newlines.
pub open spec fn always_kept(c: char) -> bool {
    c != ' ' && c != '\n'
}

/// How many characters of `s` wrapping always keeps.
pub open spec fn kept_count(s: Seq<char>) -> nat
    decreases s.len(),
{
    if s.len() == 0 {
        0
    } else {
        kept_count(s.drop_last()) + if always_kept(s.last()) {
            1nat
        } else {
            0nat
        }
    }
}

/// How many such characters the lines hold together.
pub open spec fn lines_kept_count(lines: Seq<Seq<char>>) -> nat
    decreases lines.len(),
{
    if lines.len() == 0 {
        0
    } else {
        lines_kept_count(lines.drop_last()) + kept_count(lines.last())
    }
}

/// While wrapping, every character other than a space or a newline read so far is in
/// a finished line or in the line being filled; an unfinished source line with
/// nothing read has nothing pending.
proof fn lemma_wrap_fold_keeps(text: Seq<char>, width: nat, i: nat)
    requires
        width > 0,
        i <= text.len(),
    ensures
        lines_kept_count(wrap_fold(text, width, i).lines) + kept_count(
            wrap_fold(text, width, i).current,
        ) == kept_count(text.take(i as int)),
        !wrap_fold(text, width, i).raw_nonempty ==> wrap_fold(text, width, i).current.len() == 0,
    decreases i,
{
    if i == 0 {
        assert(text.take(0) =~= Seq::<char>::empty());
    } else {
        let i1 = (i - 1) as nat;
        lemma_wrap_fold_keeps(text, width, i1);
        let prev = wrap_fold(text, width, i1);
        let ch = text[i1 as int];
        assert(text.take(i as int).drop_last() =~= text.take(i1 as int));
        assert(prev.current.push(ch).drop_last() =~= prev.current);
        assert(prev.lines.push(prev.current).drop_last() =~= prev.lines);
        assert(prev.lines.push(prev.current.push(ch)).drop_last() =~= prev.lines);
        assert(prev.lines.push(Seq::<char>::empty()).drop_last() =~= prev.lines);
        assert(kept_count(Seq::<char>::empty()) == 0);
    }
}

/// Wrapping loses no character other than spaces and newlines: the lines together
/// hold exactly as many of them as the text (for a width of at least one cell).
pub proof fn lemma_wrap_keeps_every_visible_char(text: Seq<char>, width: nat)
    requires
        width > 0,
    ensures
        lines_kept_count(wrapped(text, width)) == kept_count(text),
{
    lemma_wrap_fold_keeps(text, width, text.len());
    let st = wrap_fold(text, width, text.len());
    assert(text.take(text.len() as int) =~= text);
    assert(st.lines.push(st.current).drop_last() =~= st.lines);
    assert(st.lines.push(Seq::<char>::empty()).drop_last() =~= st.lines);
    assert(kept_count(Seq::<char>::empty()) == 0);
}

} // verus!
