use vstd::prelude::*;
use crate::utils::ringbuffer::SpscRing;
use crate::console::keyboard::KeyboardState;

verus! {

/// Line-discipline flags: canonical (line-buffered) input and echo.
#[derive(Debug, Clone, Copy, PartialEq, Eq, Structural)]
pub struct TtyFlags {
    pub bits: u64,
}

impl TtyFlags {
    pub const CANON: u64 = 1;
    pub const ECHO: u64 = 2;

    pub fn contains(&self, flags: u64) -> (r: bool)
        ensures
            r == (self.bits & flags == flags),
    {
        self.bits & flags == flags
    }
}

/// What a decoded key asks the tty to do.
#[derive(Debug, Clone, Copy, PartialEq, Eq, Structural)]
pub enum TtyAction {
    PutByte(u8),
    Backspace,
    Newline,
    Ignore,
}

/// A key as the keyboard decoder hands it over: a character, or a key without one.
#[derive(Debug, Clone, Copy, PartialEq, Eq, Structural)]
pub enum KeyInput {
    Unicode(char),
    Raw,
}

/// What the tty shows on the console in reply to an action.
#[derive(Debug, Clone, Copy, PartialEq, Eq, Structural)]
pub enum TtyEcho {
    Nothing,
    Print(char),
    Erase,
    Newline,
}

/// Input queue capacity.
pub const TTY_IN_LEN: usize = 1024;

/// `bytes` appended to a queue of capacity `cap` one at a time; those that find it
/// full are dropped.
pub open spec fn enqueue_bounded(q: Seq<u8>, bytes: Seq<u8>, cap: int) -> Seq<u8> {
    if q.len() + bytes.len() <= cap {
        q + bytes
    } else {
        (q + bytes).subrange(0, cap)
    }
}

/// The line buffer as the bytes that go to the input queue.
pub open spec fn line_bytes(buf: Seq<char>) -> Seq<u8> {
    Seq::new(buf.len(), |i: int| buf[i] as u8)
}

/// The line buffer, echo and input queue after an action, as (buffer, echo, queued bytes).
pub open spec fn action_model(
    canon: bool,
    echo: bool,
    buf: Seq<char>,
    action: TtyAction,
) -> (Seq<char>, TtyEcho, Seq<u8>) {
    match action {
        TtyAction::PutByte(b) => if canon {
            (buf.push(b as char), if echo { TtyEcho::Print(b as char) } else { TtyEcho::Nothing }, seq![])
        } else {
            (buf, if echo { TtyEcho::Print(b as char) } else { TtyEcho::Nothing }, seq![b])
        },
        TtyAction::Backspace => if canon {
            if buf.len() > 0 {
                (buf.drop_last(), if echo { TtyEcho::Erase } else { TtyEcho::Nothing }, seq![])
            } else {
                (buf, TtyEcho::Nothing, seq![])
            }
        } else {
            (buf, if echo { TtyEcho::Erase } else { TtyEcho::Nothing }, seq![0x08u8])
        },
        TtyAction::Newline => if canon {
            (seq![], if echo { TtyEcho::Newline } else { TtyEcho::Nothing }, line_bytes(buf).push(0x0Au8))
        } else {
            (buf, if echo { TtyEcho::Newline } else { TtyEcho::Nothing }, seq![0x0Au8])
        },
        TtyAction::Ignore => (buf, TtyEcho::Nothing, seq![]),
    }
}

/// The action a decoded key asks for: backspace or delete erase, newline ends the
/// line, a printable character is typed as its low byte, anything else is ignored.
pub open spec fn key_action(key: KeyInput) -> TtyAction {
    match key {
        KeyInput::Unicode(c) => if c == '\u{8}' || c == '\u{7f}' {
            TtyAction::Backspace
        } else if c == '\n' {
            TtyAction::Newline
        } else if c >= ' ' {
            TtyAction::PutByte(c as u8)
        } else {
            TtyAction::Ignore
        },
        KeyInput::Raw => TtyAction::Ignore,
    }
}

/// The line, the input queue and the echoes after the keys `ks` are decoded and
/// applied in order, from line `line` and queue `q`.
pub open spec fn keys_applied(
    canon: bool,
    echo: bool,
    line: Seq<char>,
    q: Seq<u8>,
    ks: Seq<KeyInput>,
) -> (Seq<char>, Seq<u8>, Seq<TtyEcho>)
    decreases ks.len(),
{
    if ks.len() == 0 {
        (line, q, seq![])
    } else {
        let prev = keys_applied(canon, echo, line, q, ks.drop_last());
        let m = action_model(canon, echo, prev.0, key_action(ks.last()));
        (m.0, enqueue_bounded(prev.1, m.2, TTY_IN_LEN as int), prev.2.push(m.1))
    }
}

/// The terminal line discipline: in canonical mode it collects a line and hands it
/// to readers on newline; in raw mode every byte goes straight to the input queue.
pub struct Tty {
    flags: TtyFlags,
    command_buf: Vec<char>,
}

impl Tty {
    pub closed spec fn line(&self) -> Seq<char> {
        self.command_buf@
    }

    pub closed spec fn flag_bits(&self) -> u64 {
        self.flags.bits
    }

    pub closed spec fn canon(&self) -> bool {
        self.flags.bits & TtyFlags::CANON == TtyFlags::CANON
    }

    pub closed spec fn echo(&self) -> bool {
        self.flags.bits & TtyFlags::ECHO == TtyFlags::ECHO
    }

    pub fn new() -> (r: Self)
        ensures
            r.flag_bits() == TtyFlags::CANON | TtyFlags::ECHO,
            r.line() == Seq::<char>::empty(),
    {
        Self { flags: TtyFlags { bits: TtyFlags::CANON | TtyFlags::ECHO }, command_buf: Vec::new() }
    }

    /// The action a decoded key asks for.
    pub fn on_decode_key(&mut self, key: KeyInput) -> (r: TtyAction)
        ensures
            *final(self) == *old(self),
            r == key_action(key),
    {
        match key {
            KeyInput::Unicode(c) => {
                if c == '\u{8}' || c == '\u{7f}' {
                    TtyAction::Backspace
                } else if c == '\n' {
                    TtyAction::Newline
                } else if c >= ' ' {
                    #[verifier::truncate]
                    let b = c as u8;
                    TtyAction::PutByte(b)
                } else {
                    TtyAction::Ignore
                }
            },
            KeyInput::Raw => TtyAction::Ignore,
        }
    }

    pub fn clear_line(&mut self)
        ensures
            final(self).line() == Seq::<char>::empty(),
            final(self).flag_bits() == old(self).flag_bits(),
    {
        self.command_buf.clear();
    }

    /// Applies an action: updates the line buffer, queues input for readers (bytes
    /// that find the queue full are dropped) and says what to echo.
    pub fn apply_action(&mut self, action: TtyAction, tty_in: &mut SpscRing<u8, 1024>) -> (r: TtyEcho)
        requires
            old(tty_in).wf(),
        ensures
            final(tty_in).wf(),
            final(self).flag_bits() == old(self).flag_bits(),
            ({
                let m = action_model(old(self).canon(), old(self).echo(), old(self).line(), action);
                &&& final(self).line() == m.0
                &&& r == m.1
                &&& final(tty_in)@ == enqueue_bounded(old(tty_in)@, m.2, TTY_IN_LEN as int)
            }),
    {
        proof {
            tty_in.lemma_len_bound();
        }
        let canon = self.flags.contains(TtyFlags::CANON);
        let echo = self.flags.contains(TtyFlags::ECHO);
        match action {
            TtyAction::PutByte(b) => {
                if canon {
                    self.command_buf.push(b as char);
                    if echo { TtyEcho::Print(b as char) } else { TtyEcho::Nothing }
                } else {
                    let _ = tty_in.push(b);
                    assert(enqueue_bounded(old(tty_in)@, seq![b], 1024) =~= tty_in@);
                    if echo { TtyEcho::Print(b as char) } else { TtyEcho::Nothing }
                }
            },
            TtyAction::Backspace => {
                if canon {
                    if self.command_buf.pop().is_some() && echo {
                        TtyEcho::Erase
                    } else {
                        TtyEcho::Nothing
                    }
                } else {
                    let _ = tty_in.push(0x08);
                    assert(enqueue_bounded(old(tty_in)@, seq![0x08u8], 1024) =~= tty_in@);
                    if echo { TtyEcho::Erase } else { TtyEcho::Nothing }
                }
            },
            TtyAction::Newline => {
                if canon {
                    let ghost line = self.command_buf@;
                    let mut i: usize = 0;
                    while i < self.command_buf.len()
                        invariant
                            self.command_buf@ == line,
                            self.flags == old(self).flags,
                            tty_in.wf(),
                            old(tty_in)@.len() <= 1024,
                            i <= line.len(),
                            tty_in@ == enqueue_bounded(old(tty_in)@, line_bytes(line).subrange(0, i as int), 1024),
                        decreases line.len() - i,
                    {
                        #[verifier::truncate]
                        let c = self.command_buf[i] as u8;
                        let ghost q = tty_in@;
                        let _ = tty_in.push(c);
                        proof {
                            lemma_enqueue_one(old(tty_in)@, line_bytes(line).subrange(0, i as int), c, 1024);
                            assert(line_bytes(line).subrange(0, i + 1) =~= line_bytes(line).subrange(0, i as int).push(c));
                        }
                        i = i + 1;
                    }
                    self.command_buf.clear();
                    let _ = tty_in.push(0x0A);
                    proof {
                        old(tty_in).lemma_len_bound();
                        lemma_enqueue_one(old(tty_in)@, line_bytes(line), 0x0Au8, 1024);
                        assert(line_bytes(line).subrange(0, line.len() as int) =~= line_bytes(line));
                    }
                    if echo { TtyEcho::Newline } else { TtyEcho::Nothing }
                } else {
                    let _ = tty_in.push(0x0A);
                    assert(enqueue_bounded(old(tty_in)@, seq![0x0Au8], 1024) =~= tty_in@);
                    if echo { TtyEcho::Newline } else { TtyEcho::Nothing }
                }
            },
            TtyAction::Ignore => {
                assert(enqueue_bounded(old(tty_in)@, seq![], 1024) =~= tty_in@);
                TtyEcho::Nothing
            },
        }
    }
}

impl Tty {
    /// Drains the scan codes the keyboard interrupt queued: each one, oldest first,
    /// goes to the decoder, and each key the decoder gives back goes through the
    /// line discipline, in order. Returns what to echo, in order.
    pub fn pump_tty(
        keyboard_buf: &mut SpscRing<u8, 256>,
        keyboard: &mut KeyboardState,
        tty: &mut Tty,
        tty_in: &mut SpscRing<u8, 1024>,
    ) -> (echoes: Vec<TtyEcho>)
        requires
            old(keyboard_buf).wf(),
            old(tty_in).wf(),
            old(keyboard).wf(),
        ensures
            final(keyboard_buf).wf(),
            final(keyboard).wf(),
            final(keyboard_buf)@.len() == 0,
            final(tty_in).wf(),
            final(tty).flag_bits() == old(tty).flag_bits(),
            final(keyboard).fed() == old(keyboard).fed() + old(keyboard_buf)@,
            final(keyboard).decoded().len() >= old(keyboard).decoded().len(),
            final(keyboard).decoded().take(old(keyboard).decoded().len() as int) == old(keyboard).decoded(),
            keys_applied(
                old(tty).canon(),
                old(tty).echo(),
                old(tty).line(),
                old(tty_in)@,
                final(keyboard).decoded().skip(old(keyboard).decoded().len() as int),
            ) == (final(tty).line(), final(tty_in)@, echoes@),
    {
        let mut echoes: Vec<TtyEcho> = Vec::new();
        let ghost fed0 = keyboard.fed();
        let ghost dec0 = keyboard.decoded();
        let ghost buf0 = keyboard_buf@;
        let ghost mut ks: Seq<KeyInput> = Seq::empty();
        loop
            invariant
                keyboard_buf.wf(),
                tty_in.wf(),
                keyboard.wf(),
                fed0 == old(keyboard).fed(),
                dec0 == old(keyboard).decoded(),
                buf0 == old(keyboard_buf)@,
                tty.flag_bits() == old(tty).flag_bits(),
                tty.canon() == old(tty).canon(),
                tty.echo() == old(tty).echo(),
                fed0 + buf0 == keyboard.fed() + keyboard_buf@,
                keyboard.decoded() == dec0 + ks,
                keys_applied(old(tty).canon(), old(tty).echo(), old(tty).line(), old(tty_in)@, ks)
                    == (tty.line(), tty_in@, echoes@),
            ensures
                keyboard_buf.wf(),
                keyboard_buf@.len() == 0,
                tty_in.wf(),
                keyboard.wf(),
                tty.flag_bits() == old(tty).flag_bits(),
                fed0 + buf0 == keyboard.fed(),
                keyboard.decoded() == dec0 + ks,
                keys_applied(old(tty).canon(), old(tty).echo(), old(tty).line(), old(tty_in)@, ks)
                    == (tty.line(), tty_in@, echoes@),
            decreases keyboard_buf@.len(),
        {
            let ghost fed1 = keyboard.fed();
            let ghost buf1 = keyboard_buf@;
            let sc = match keyboard_buf.pop() {
                Some(sc) => sc,
                None => {
                    assert(buf1 =~= Seq::<u8>::empty());
                    assert(fed1 + buf1 =~= fed1);
                    break;
                },
            };
            let k = keyboard.feed(sc);
            proof {
                assert(fed1 + buf1 =~= fed1.push(sc) + keyboard_buf@);
            }
            if let Some(key) = k {
                let action = tty.on_decode_key(key);
                let echo = tty.apply_action(action, tty_in);
                echoes.push(echo);
                proof {
                    let ks0 = ks;
                    ks = ks.push(key);
                    assert(ks.drop_last() =~= ks0);
                    assert(dec0 + ks =~= (dec0 + ks0).push(key));
                }
            }
        }
        proof {
            assert((dec0 + ks).skip(dec0.len() as int) =~= ks);
            assert((dec0 + ks).take(dec0.len() as int) =~= dec0);
        }
        echoes
    }
}

/// Takes up to `len` bytes from the terminal's input queue, oldest first: what a
/// read of the terminal gets once the keyboard has been drained.
pub fn read_tty_input(tty_in: &mut SpscRing<u8, 1024>, len: usize) -> (r: Vec<u8>)
    requires
        old(tty_in).wf(),
    ensures
        final(tty_in).wf(),
        r@.len() == (if len <= old(tty_in)@.len() { len as int } else { old(tty_in)@.len() as int }),
        r@ == old(tty_in)@.take(r@.len() as int),
        final(tty_in)@ == old(tty_in)@.skip(r@.len() as int),
{
    let mut out: Vec<u8> = Vec::new();
    while out.len() < len
        invariant
            tty_in.wf(),
            out@.len() <= len,
            out@.len() <= old(tty_in)@.len(),
            out@ == old(tty_in)@.take(out@.len() as int),
            tty_in@ == old(tty_in)@.skip(out@.len() as int),
        ensures
            tty_in.wf(),
            out@.len() <= len,
            out@ == old(tty_in)@.take(out@.len() as int),
            tty_in@ == old(tty_in)@.skip(out@.len() as int),
            out@.len() == len || out@.len() == old(tty_in)@.len(),
        decreases len - out@.len(),
    {
        match tty_in.pop() {
            Some(b) => {
                let ghost n = out@.len() as int;
                out.push(b);
                assert(out@ =~= old(tty_in)@.take(n + 1));
                assert(tty_in@ =~= old(tty_in)@.skip(n + 1));
            },
            None => {
                break;
            },
        }
    }
    out
}

/// Appending one more byte to a bounded queue.
proof fn lemma_enqueue_one(q: Seq<u8>, bytes: Seq<u8>, b: u8, cap: int)
    requires
        q.len() <= cap,
    ensures
        ({
            let e = enqueue_bounded(q, bytes, cap);
            enqueue_bounded(q, bytes.push(b), cap) == if e.len() < cap { e.push(b) } else { e }
        }),
{
    let e = enqueue_bounded(q, bytes, cap);
    if q.len() + bytes.len() + 1 <= cap {
        assert(q + bytes.push(b) =~= (q + bytes).push(b));
    } else if q.len() + bytes.len() <= cap {
        assert((q + bytes.push(b)).subrange(0, cap) =~= q + bytes);
    } else {
        assert((q + bytes.push(b)).subrange(0, cap) =~= (q + bytes).subrange(0, cap));
    }
}

/// The bytes that typing `bytes` (each a `PutByte`) gives in canonical mode:
/// the line grows by them, nothing is queued yet.
pub open spec fn typed(buf: Seq<char>, bytes: Seq<u8>) -> Seq<char>
    decreases bytes.len(),
{
    if bytes.len() == 0 {
        buf
    } else {
        typed(action_model(true, true, buf, TtyAction::PutByte(bytes[0])).0, bytes.drop_first())
    }
}

/// In canonical mode a typed line reaches readers only with its newline, and
/// then whole: typing bytes queues nothing, and the newline queues the line
/// so far, the typed bytes and '\n', leaving the line empty.
pub proof fn law_line_delivered(buf: Seq<char>, bytes: Seq<u8>)
    ensures
        typed(buf, bytes) == buf + Seq::new(bytes.len(), |i: int| bytes[i] as char),
        action_model(true, true, typed(buf, bytes), TtyAction::Newline).2 == line_bytes(buf) + Seq::new(
            bytes.len(),
            |i: int| (bytes[i] as char) as u8,
        ) + seq![0x0Au8],
        action_model(true, true, typed(buf, bytes), TtyAction::Newline).0 == Seq::<char>::empty(),
    decreases bytes.len(),
{
    if bytes.len() > 0 {
        let buf1 = buf.push(bytes[0] as char);
        law_line_delivered(buf1, bytes.drop_first());
        assert(buf1 + Seq::new(bytes.drop_first().len(), |i: int| bytes.drop_first()[i] as char) =~= buf + Seq::new(
            bytes.len(),
            |i: int| bytes[i] as char,
        ));
        assert(line_bytes(buf1) + Seq::new(bytes.drop_first().len(), |i: int| (bytes.drop_first()[i] as char) as u8)
            =~= line_bytes(buf) + Seq::new(bytes.len(), |i: int| (bytes[i] as char) as u8));
    } else {
        assert(buf + Seq::new(0, |i: int| bytes[i] as char) =~= buf);
        assert(line_bytes(buf) + Seq::new(0, |i: int| (bytes[i] as char) as u8) =~= line_bytes(buf));
    }
}

/// The erase keys: Backspace (U+0008, as the PS/2 decoder delivers it) and Delete
/// (U+007F) both erase. In canonical mode, typing any printable character and then
/// either erase key leaves the line and the input queue as they were, and an erase
/// key on a non-empty line removes exactly its last character.
pub proof fn law_erase_keys_erase(echo: bool, line: Seq<char>, q: Seq<u8>, c: char, e: char)
    requires
        e == '\u{8}' || e == '\u{7f}',
        ' ' <= c,
        c != '\u{7f}',
        q.len() <= TTY_IN_LEN,
    ensures
        key_action(KeyInput::Unicode(e)) == TtyAction::Backspace,
        keys_applied(true, echo, line, q, seq![KeyInput::Unicode(c), KeyInput::Unicode(e)]).0 == line,
        keys_applied(true, echo, line, q, seq![KeyInput::Unicode(c), KeyInput::Unicode(e)]).1 == q,
        line.len() > 0 ==> action_model(true, echo, line, key_action(KeyInput::Unicode(e))).0 == line.drop_last(),
{
    let ks = seq![KeyInput::Unicode(c), KeyInput::Unicode(e)];
    let k1 = seq![KeyInput::Unicode(c)];
    assert(ks.drop_last() =~= k1);
    assert(k1.drop_last() =~= Seq::<KeyInput>::empty());
    assert(ks.last() == KeyInput::Unicode(e));
    assert(k1.last() == KeyInput::Unicode(c));
    let b = c as u8;
    assert(key_action(KeyInput::Unicode(c)) == TtyAction::PutByte(b));
    assert(q + seq![] =~= q);
    assert(enqueue_bounded(q, seq![], TTY_IN_LEN as int) == q);
    let p0 = keys_applied(true, echo, line, q, Seq::<KeyInput>::empty());
    assert(p0 == (line, q, Seq::<TtyEcho>::empty()));
    let p1 = keys_applied(true, echo, line, q, k1);
    let line1 = line.push(b as char);
    assert(p1.0 == line1 && p1.1 == q);
    assert(line1.drop_last() =~= line);
    let p2 = keys_applied(true, echo, line, q, ks);
    assert(p2.0 == line && p2.1 == q);
}

/// In canonical mode a typed key edits the line and nothing reaches readers until a
/// newline: a printable character is appended as its low byte, a control character
/// other than the erase keys and newline changes nothing, as does a raw key, and a
/// newline hands the whole line and '\n' to the input queue and empties the line.
pub proof fn law_canonical_keys(echo: bool, line: Seq<char>, q: Seq<u8>, c: char)
    requires
        q.len() + line.len() + 1 <= TTY_IN_LEN,
    ensures
        ' ' <= c && c != '\u{7f}' ==> keys_applied(true, echo, line, q, seq![KeyInput::Unicode(c)]).0 == line.push(
            (c as u8) as char,
        ) && keys_applied(true, echo, line, q, seq![KeyInput::Unicode(c)]).1 == q,
        c < ' ' && c != '\u{8}' && c != '\n' ==> keys_applied(true, echo, line, q, seq![KeyInput::Unicode(c)]).0 == line
            && keys_applied(true, echo, line, q, seq![KeyInput::Unicode(c)]).1 == q,
        keys_applied(true, echo, line, q, seq![KeyInput::Raw]).0 == line && keys_applied(
            true,
            echo,
            line,
            q,
            seq![KeyInput::Raw],
        ).1 == q,
        keys_applied(true, echo, line, q, seq![KeyInput::Unicode('\n')]).0 == Seq::<char>::empty()
            && keys_applied(true, echo, line, q, seq![KeyInput::Unicode('\n')]).1 == q + line_bytes(line).push(
            0x0Au8,
        ),
{
    assert(seq![KeyInput::Unicode(c)].drop_last() =~= Seq::<KeyInput>::empty());
    assert(seq![KeyInput::Raw].drop_last() =~= Seq::<KeyInput>::empty());
    assert(seq![KeyInput::Unicode('\n')].drop_last() =~= Seq::<KeyInput>::empty());
    assert(q + seq![] =~= q);
    assert(keys_applied(true, echo, line, q, Seq::<KeyInput>::empty()) == (line, q, Seq::<TtyEcho>::empty()));
    assert(line_bytes(line).push(0x0Au8).len() == line.len() + 1);
}

} // verus!
