use vstd::prelude::*;
use vstd::utf8::is_scalar;
use crate::grid::{CellGrid, GridView, csi_effect, lemma_ops_wf};

verus! {

/// The most parameters one control sequence keeps; further ones are dropped.
pub const MAX_PARAMS: usize = 16;

/// Where the parser stands in an escape sequence.
#[derive(Clone, Copy, PartialEq, Eq, Structural, Debug)]
pub enum VtState {
    /// Plain text and C0 controls.
    Ground,
    /// Just saw ESC.
    Escape,
    /// Saw `ESC [`, no parameter byte yet.
    CsiEntry,
    /// Collecting the parameters of a control sequence.
    CsiParam,
    /// Saw `ESC ]`; collecting until BEL or `ESC \`.
    OscString,
}

/// Abstract state of the parser.
pub struct ParserView {
    pub state: VtState,
    /// Parameters completed by `;`, `None` where a parameter was left empty.
    pub params: Seq<Option<u16>>,
    /// The parameter being typed, `None` before its first digit.
    pub current: Option<u16>,
    /// The sequence holds a byte this emulator does not support and is dropped.
    pub ignore: bool,
    /// Continuation bytes still expected by a UTF-8 sequence in ground state.
    pub utf8_need: u8,
    /// The code point bits collected so far.
    pub utf8_acc: u32,
    /// The smallest code point the sequence's length may encode.
    pub utf8_min: u32,
}

impl ParserView {
    pub open spec fn wf(self) -> bool {
        &&& self.params.len() <= MAX_PARAMS
        &&& self.state == VtState::CsiEntry ==> self.params.len() == 0
        &&& self.utf8_need <= 3
        &&& self.utf8_acc < 0x8000
        &&& self.utf8_need == 2 ==> self.utf8_acc < 0x200
        &&& self.utf8_need == 3 ==> self.utf8_acc < 0x8
    }

    pub open spec fn in_state(self, s: VtState) -> ParserView {
        ParserView { state: s, ..self }
    }

    /// The parameters of the sequence when its final byte comes.
    pub open spec fn final_params(self) -> Seq<Option<u16>> {
        if self.state == VtState::CsiEntry {
            Seq::empty()
        } else if self.params.len() < MAX_PARAMS {
            self.params.push(self.current)
        } else {
            self.params
        }
    }

    /// No UTF-8 sequence pending.
    pub open spec fn utf8_cleared(self) -> ParserView {
        ParserView { utf8_need: 0, utf8_acc: 0, utf8_min: 0, ..self }
    }
}

pub open spec fn ground() -> ParserView {
    ParserView {
        state: VtState::Ground,
        params: Seq::empty(),
        current: None,
        ignore: false,
        utf8_need: 0,
        utf8_acc: 0,
        utf8_min: 0,
    }
}

pub open spec fn csi_entry() -> ParserView {
    ground().in_state(VtState::CsiEntry)
}

pub open spec fn is_digit(b: u8) -> bool {
    0x30 <= b <= 0x39
}

pub open spec fn is_final(b: u8) -> bool {
    0x40 <= b <= 0x7E
}

/// `cur` with the decimal digit `b` appended, saturating at `u16::MAX`.
pub open spec fn push_digit(cur: Option<u16>, b: u8) -> u16 {
    let v = (match cur {
        Some(c) => c as int,
        None => 0,
    }) * 10 + (b - 0x30);
    if v > 0xFFFF {
        0xFFFF
    } else {
        v as u16
    }
}

/// The character of an ASCII byte.
pub open spec fn byte_char(b: u8) -> char {
    b as char
}

/// Printed in place of a malformed UTF-8 sequence.
pub const REPLACEMENT: char = '\u{FFFD}';

/// The character a complete UTF-8 sequence decodes to: its code point when
/// that is a Unicode scalar value not encodable in fewer bytes, else the
/// replacement character.
pub open spec fn decoded_char(acc: u32, min: u32) -> char {
    if is_scalar(acc) && acc >= min {
        acc as char
    } else {
        REPLACEMENT
    }
}

/// One byte in ground state with no UTF-8 sequence pending.
pub open spec fn ground_byte(g: GridView, p: ParserView, b: u8) -> (GridView, ParserView) {
    if b == 0x1B {
        (g, ground().in_state(VtState::Escape))
    } else if b < 0x20 {
        (g.executed(b), p)
    } else if b == 0x7F {
        (g, p)
    } else if b < 0x80 {
        (g.printed_char(byte_char(b)), p)
    } else if 0xC2 <= b <= 0xDF {
        (g, ParserView { utf8_need: 1, utf8_acc: (b - 0xC0) as u32, utf8_min: 0x80, ..p })
    } else if 0xE0 <= b <= 0xEF {
        (g, ParserView { utf8_need: 2, utf8_acc: (b - 0xE0) as u32, utf8_min: 0x800, ..p })
    } else if 0xF0 <= b <= 0xF4 {
        (g, ParserView { utf8_need: 3, utf8_acc: (b - 0xF0) as u32, utf8_min: 0x10000, ..p })
    } else {
        (g.printed_char(REPLACEMENT), p)
    }
}

/// One byte in ground state: text is decoded as UTF-8; a sequence broken by
/// another byte prints the replacement character, then that byte is taken
/// afresh.
pub open spec fn step_ground(g: GridView, p: ParserView, b: u8) -> (GridView, ParserView) {
    if p.utf8_need == 0 {
        ground_byte(g, p, b)
    } else if 0x80 <= b <= 0xBF {
        let acc = (p.utf8_acc * 64 + (b - 0x80)) as u32;
        if p.utf8_need == 1 {
            (g.printed_char(decoded_char(acc, p.utf8_min)), p.utf8_cleared())
        } else {
            (g, ParserView { utf8_need: (p.utf8_need - 1) as u8, utf8_acc: acc, ..p })
        }
    } else {
        ground_byte(g.printed_char(REPLACEMENT), p.utf8_cleared(), b)
    }
}

/// One byte fed to the parser in a control sequence.
pub open spec fn step_csi(g: GridView, p: ParserView, b: u8) -> (GridView, ParserView) {
    if b == 0x1B {
        (g, ground().in_state(VtState::Escape))
    } else if b < 0x20 {
        (g.executed(b), p)
    } else if is_digit(b) {
        (g, ParserView { state: VtState::CsiParam, current: Some(push_digit(p.current, b)), ..p })
    } else if b == 0x3B {
        let params = if p.params.len() < MAX_PARAMS {
            p.params.push(p.current)
        } else {
            p.params
        };
        (g, ParserView { state: VtState::CsiParam, params, current: None, ..p })
    } else if is_final(b) {
        (
            if p.ignore {
                g
            } else {
                csi_effect(g, p.final_params(), b)
            },
            ground(),
        )
    } else if b == 0x7F {
        (g, p)
    } else {
        (g, ParserView { state: VtState::CsiParam, ignore: true, ..p })
    }
}

/// One byte fed to the parser: the new grid and parser states.
pub open spec fn step(g: GridView, p: ParserView, b: u8) -> (GridView, ParserView) {
    match p.state {
        VtState::Ground => step_ground(g, p, b),
        VtState::Escape => {
            if b == 0x5B {
                (g, csi_entry())
            } else if b == 0x5D {
                (g, ground().in_state(VtState::OscString))
            } else if b == 0x1B {
                (g, ground().in_state(VtState::Escape))
            } else {
                (g, ground())
            }
        },
        VtState::CsiEntry => step_csi(g, p, b),
        VtState::CsiParam => step_csi(g, p, b),
        VtState::OscString => {
            if b == 0x07 {
                (g, ground())
            } else if b == 0x1B {
                (g, ground().in_state(VtState::Escape))
            } else {
                (g, p)
            }
        },
    }
}

/// The grid and parser states after feeding `bytes` in order.
pub open spec fn feed(g: GridView, p: ParserView, bytes: Seq<u8>) -> (GridView, ParserView)
    decreases bytes.len(),
{
    if bytes.len() == 0 {
        (g, p)
    } else {
        let prev = feed(g, p, bytes.drop_last());
        step(prev.0, prev.1, bytes.last())
    }
}

/// Relies on `char::from_u32`: the character with that code point, or none
/// when the value is not a Unicode scalar value.
#[verifier::external_body]
fn char_from_u32(v: u32) -> (r: Option<char>)
    ensures
        r is Some <==> is_scalar(v),
        r is Some ==> r->0 as u32 == v,
{
    char::from_u32(v)
}

/// A byte-fed state machine for the supported subset of VT escape sequences.
pub struct VtParser {
    state: VtState,
    params: Vec<Option<u16>>,
    current: Option<u16>,
    ignore: bool,
    utf8_need: u8,
    utf8_acc: u32,
    utf8_min: u32,
}

impl View for VtParser {
    type V = ParserView;

    closed spec fn view(&self) -> ParserView {
        ParserView {
            state: self.state,
            params: self.params@,
            current: self.current,
            ignore: self.ignore,
            utf8_need: self.utf8_need,
            utf8_acc: self.utf8_acc,
            utf8_min: self.utf8_min,
        }
    }
}

impl VtParser {
    pub open spec fn wf(&self) -> bool {
        self@.wf()
    }

    pub fn new() -> (r: VtParser)
        ensures
            r.wf(),
            r@ == ground(),
    {
        VtParser {
            state: VtState::Ground,
            params: Vec::new(),
            current: None,
            ignore: false,
            utf8_need: 0,
            utf8_acc: 0,
            utf8_min: 0,
        }
    }

    pub fn state(&self) -> (r: VtState)
        ensures
            r == self@.state,
    {
        self.state
    }

    fn reset(&mut self, s: VtState)
        ensures
            final(self)@ == ground().in_state(s),
    {
        self.state = s;
        self.params = Vec::new();
        self.current = None;
        self.ignore = false;
        self.utf8_need = 0;
        self.utf8_acc = 0;
        self.utf8_min = 0;
        assert(self@.params =~= Seq::<Option<u16>>::empty());
    }

    fn advance_ground_byte(&mut self, grid: &mut CellGrid, byte: u8)
        requires
            old(self).wf(),
            old(grid).wf(),
            old(self)@.state == VtState::Ground,
            old(self)@.utf8_need == 0,
        ensures
            final(self).wf(),
            final(grid).wf(),
            (final(grid)@, final(self)@) == ground_byte(old(grid)@, old(self)@, byte),
    {
        if byte == 0x1B {
            self.reset(VtState::Escape);
        } else if byte < 0x20 {
            grid.execute(byte);
        } else if byte == 0x7F {
        } else if byte < 0x80 {
            grid.print(byte as char);
        } else if 0xC2 <= byte && byte <= 0xDF {
            self.utf8_need = 1;
            self.utf8_acc = (byte - 0xC0) as u32;
            self.utf8_min = 0x80;
        } else if 0xE0 <= byte && byte <= 0xEF {
            self.utf8_need = 2;
            self.utf8_acc = (byte - 0xE0) as u32;
            self.utf8_min = 0x800;
        } else if 0xF0 <= byte && byte <= 0xF4 {
            self.utf8_need = 3;
            self.utf8_acc = (byte - 0xF0) as u32;
            self.utf8_min = 0x10000;
        } else {
            grid.print(REPLACEMENT);
        }
    }

    fn advance_ground(&mut self, grid: &mut CellGrid, byte: u8)
        requires
            old(self).wf(),
            old(grid).wf(),
            old(self)@.state == VtState::Ground,
        ensures
            final(self).wf(),
            final(grid).wf(),
            (final(grid)@, final(self)@) == step_ground(old(grid)@, old(self)@, byte),
    {
        if self.utf8_need == 0 {
            self.advance_ground_byte(grid, byte);
        } else if 0x80 <= byte && byte <= 0xBF {
            let acc: u32 = self.utf8_acc * 64 + (byte - 0x80) as u32;
            if self.utf8_need == 1 {
                let c = match char_from_u32(acc) {
                    Some(c) => if acc >= self.utf8_min {
                        c
                    } else {
                        REPLACEMENT
                    },
                    None => REPLACEMENT,
                };
                proof {
                    if is_scalar(acc) && acc >= self.utf8_min {
                        vstd::utf8::char_u32_cast(c, acc);
                    }
                }
                grid.print(c);
                self.utf8_need = 0;
                self.utf8_acc = 0;
                self.utf8_min = 0;
            } else {
                self.utf8_need = self.utf8_need - 1;
                self.utf8_acc = acc;
            }
        } else {
            grid.print(REPLACEMENT);
            self.utf8_need = 0;
            self.utf8_acc = 0;
            self.utf8_min = 0;
            self.advance_ground_byte(grid, byte);
        }
    }

    fn advance_csi(&mut self, grid: &mut CellGrid, byte: u8)
        requires
            old(self).wf(),
            old(grid).wf(),
            old(self)@.state == VtState::CsiEntry || old(self)@.state == VtState::CsiParam,
        ensures
            final(self).wf(),
            final(grid).wf(),
            (final(grid)@, final(self)@) == step_csi(old(grid)@, old(self)@, byte),
    {
        if byte == 0x1B {
            self.reset(VtState::Escape);
        } else if byte < 0x20 {
            grid.execute(byte);
        } else if 0x30 <= byte && byte <= 0x39 {
            let cur: u32 = match self.current {
                Some(c) => c as u32,
                None => 0,
            };
            let v: u32 = cur * 10 + (byte - 0x30) as u32;
            self.current = Some(
                if v > 0xFFFF {
                    0xFFFF
                } else {
                    v as u16
                },
            );
            self.state = VtState::CsiParam;
        } else if byte == 0x3B {
            if self.params.len() < MAX_PARAMS {
                self.params.push(self.current);
            }
            self.current = None;
            self.state = VtState::CsiParam;
        } else if 0x40 <= byte && byte <= 0x7E {
            if !self.ignore {
                if self.state == VtState::CsiParam && self.params.len() < MAX_PARAMS {
                    self.params.push(self.current);
                }
                grid.csi_dispatch(&self.params, byte);
            }
            self.reset(VtState::Ground);
        } else if byte != 0x7F {
            self.ignore = true;
            self.state = VtState::CsiParam;
        }
    }

    /// Feeds one byte: prints text decoded as UTF-8, executes a C0 control,
    /// or moves through an escape sequence, dispatching a complete one to the
    /// grid.
    pub fn advance(&mut self, grid: &mut CellGrid, byte: u8)
        requires
            old(self).wf(),
            old(grid).wf(),
        ensures
            final(self).wf(),
            final(grid).wf(),
            (final(grid)@, final(self)@) == step(old(grid)@, old(self)@, byte),
    {
        match self.state {
            VtState::Ground => {
                self.advance_ground(grid, byte);
            },
            VtState::Escape => {
                if byte == 0x5B {
                    self.reset(VtState::CsiEntry);
                } else if byte == 0x5D {
                    self.reset(VtState::OscString);
                } else if byte == 0x1B {
                    self.reset(VtState::Escape);
                } else {
                    self.reset(VtState::Ground);
                }
            },
            VtState::CsiEntry => {
                self.advance_csi(grid, byte);
            },
            VtState::CsiParam => {
                self.advance_csi(grid, byte);
            },
            VtState::OscString => {
                if byte == 0x07 {
                    self.reset(VtState::Ground);
                } else if byte == 0x1B {
                    self.reset(VtState::Escape);
                }
            },
        }
    }

    /// Feeds every byte of `bytes` in order.
    pub fn advance_all(&mut self, grid: &mut CellGrid, bytes: &[u8])
        requires
            old(self).wf(),
            old(grid).wf(),
        ensures
            final(self).wf(),
            final(grid).wf(),
            (final(grid)@, final(self)@) == feed(old(grid)@, old(self)@, bytes@),
    {
        let ghost g0 = grid@;
        let ghost p0 = self@;
        let mut i: usize = 0;
        while i < bytes.len()
            invariant
                i <= bytes@.len(),
                self.wf(),
                grid.wf(),
                (grid@, self@) == feed(g0, p0, bytes@.take(i as int)),
            decreases bytes@.len() - i,
        {
            proof {
                assert(bytes@.take(i + 1).drop_last() =~= bytes@.take(i as int));
            }
            self.advance(grid, bytes[i]);
            i = i + 1;
        }
        proof {
            assert(bytes@.take(i as int) =~= bytes@);
        }
    }
}

/// A single byte keeps the grid well formed: the cell count stays
/// `width * height` and the cursor stays inside the grid; the parser keeps its
/// parameter bound.
pub proof fn lemma_step_wf(g: GridView, p: ParserView, b: u8)
    requires
        g.wf(),
        p.wf(),
    ensures
        step(g, p, b).0.wf(),
        step(g, p, b).1.wf(),
        step(g, p, b).0.width == g.width,
        step(g, p, b).0.height == g.height,
{
    lemma_ops_wf(g, byte_char(b), b, p.final_params());
    lemma_ops_wf(g, REPLACEMENT, b, p.final_params());
    let acc = (p.utf8_acc * 64 + (b - 0x80)) as u32;
    lemma_ops_wf(g, decoded_char(acc, p.utf8_min), b, p.final_params());
    let g2 = g.printed_char(REPLACEMENT);
    lemma_ops_wf(g2, byte_char(b), b, p.final_params());
    lemma_ops_wf(g2, REPLACEMENT, b, p.final_params());
}

/// Any byte sequence keeps the grid well formed: after every byte the cell
/// count is `width * height` and the cursor lies inside the grid.
pub proof fn lemma_feed_wf(g: GridView, p: ParserView, bytes: Seq<u8>)
    requires
        g.wf(),
        p.wf(),
    ensures
        feed(g, p, bytes).0.wf(),
        feed(g, p, bytes).1.wf(),
        feed(g, p, bytes).0.width == g.width,
        feed(g, p, bytes).0.height == g.height,
    decreases bytes.len(),
{
    if bytes.len() > 0 {
        lemma_feed_wf(g, p, bytes.drop_last());
        let prev = feed(g, p, bytes.drop_last());
        lemma_step_wf(prev.0, prev.1, bytes.last());
    }
}

/// The byte after ESC always moves the parser on: `[` opens a control
/// sequence, `]` an operating-system command, a further ESC starts a new
/// escape sequence, and any other byte completes the sequence, which is
/// dropped, returning to ground.
pub proof fn lemma_escape_transitions(g: GridView, p: ParserView, b: u8)
    requires
        p.state == VtState::Escape,
    ensures
        step(g, p, b).0 == g,
        b == 0x5B ==> step(g, p, b).1 == csi_entry(),
        b == 0x5D ==> step(g, p, b).1 == ground().in_state(VtState::OscString),
        b == 0x1B ==> step(g, p, b).1 == ground().in_state(VtState::Escape),
        b != 0x5B && b != 0x5D && b != 0x1B ==> step(g, p, b).1 == ground(),
{
}

/// Inside an operating-system command every byte leaves the grid alone: the
/// string is collected until BEL or ESC and then dropped.
pub proof fn lemma_osc_ignored(g: GridView, p: ParserView, b: u8)
    requires
        p.state == VtState::OscString,
    ensures
        step(g, p, b).0 == g,
        b == 0x07 ==> step(g, p, b).1 == ground(),
        b == 0x1B ==> step(g, p, b).1 == ground().in_state(VtState::Escape),
        b != 0x07 && b != 0x1B ==> step(g, p, b).1 == p,
{
}

/// Feeding two byte sequences one after the other is feeding their
/// concatenation.
pub proof fn lemma_feed_concat(g: GridView, p: ParserView, a: Seq<u8>, b: Seq<u8>)
    ensures
        feed(feed(g, p, a).0, feed(g, p, a).1, b) == feed(g, p, a + b),
    decreases b.len(),
{
    if b.len() == 0 {
        assert(a + b =~= a);
    } else {
        lemma_feed_concat(g, p, a, b.drop_last());
        assert((a + b).drop_last() =~= a + b.drop_last());
        assert((a + b).last() == b.last());
    }
}

} // verus!
