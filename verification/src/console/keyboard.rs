use vstd::prelude::*;
use pc_keyboard::layouts::Us104Key;
use pc_keyboard::{DecodedKey, HandleControl, KeyEvent, PS2Keyboard, ScancodeSet1};
use crate::console::tty::KeyInput;

verus! {

/// The `pc-keyboard` PS/2 decoder (scan code set 1, US 104-key layout, control
/// keys passed through), with room for the key event its last byte completed until
/// that event is decoded.
#[verifier::external_body]
pub struct PcKeyboard {
    kb: PS2Keyboard<Us104Key, ScancodeSet1>,
    pending: Option<KeyEvent>,
}

/// The scan code bytes fed to `k` since it was made, oldest first.
pub uninterp spec fn kb_fed(k: PcKeyboard) -> Seq<u8>;

/// `k` holds a key event that its last byte completed and that is not decoded yet.
pub uninterp spec fn kb_has_pending(k: PcKeyboard) -> bool;

/// The key that the decoder gives for the last byte of `bytes`, when they are fed
/// one by one to a fresh decoder and every key event they complete is decoded at
/// once: `None` when that byte completes no event, is refused, or completes one
/// that decodes to no key. The decoder's settings are fixed, so this depends on the
/// bytes alone.
pub uninterp spec fn kb_key_after(bytes: Seq<u8>) -> Option<KeyInput>;

/// Calls `PS2Keyboard::new` with scan code set 1, the US 104-key layout and
/// `HandleControl::Ignore`: a decoder that has been fed nothing.
#[verifier::external_body]
fn new_ps2_keyboard() -> (r: PcKeyboard)
    ensures
        kb_fed(r) == Seq::<u8>::empty(),
        !kb_has_pending(r),
{
    PcKeyboard { kb: PS2Keyboard::new(ScancodeSet1::new(), Us104Key, HandleControl::Ignore), pending: None }
}

/// Calls `PS2Keyboard::add_byte` with one scan code byte and keeps the key event it
/// completes, if any; returns whether it completed one. When it completes none (or
/// refuses the byte), no key comes of that byte.
#[verifier::external_body]
fn ps2_add_byte(k: &mut PcKeyboard, byte: u8) -> (r: bool)
    requires
        !kb_has_pending(*old(k)),
    ensures
        kb_fed(*final(k)) == kb_fed(*old(k)).push(byte),
        kb_has_pending(*final(k)) == r,
        !r ==> kb_key_after(kb_fed(*final(k))) is None,
{
    match k.kb.add_byte(byte) {
        Ok(Some(ev)) => {
            k.pending = Some(ev);
            true
        },
        Ok(None) => false,
        Err(_) => false,
    }
}

/// Calls `PS2Keyboard::process_keyevent` on the kept key event and tells the
/// `DecodedKey` variants apart: the key that the bytes fed so far give.
#[verifier::external_body]
fn ps2_process_keyevent(k: &mut PcKeyboard) -> (r: Option<KeyInput>)
    requires
        kb_has_pending(*old(k)),
    ensures
        kb_fed(*final(k)) == kb_fed(*old(k)),
        !kb_has_pending(*final(k)),
        r == kb_key_after(kb_fed(*old(k))),
{
    match k.pending.take() {
        Some(ev) => match k.kb.process_keyevent(ev) {
            Some(DecodedKey::Unicode(c)) => Some(KeyInput::Unicode(c)),
            Some(DecodedKey::RawKey(_)) => Some(KeyInput::Raw),
            None => None,
        },
        None => None,
    }
}

/// The keys that feeding `bytes` one by one to a fresh decoder gives, in order.
pub open spec fn keys_from(bytes: Seq<u8>) -> Seq<KeyInput>
    decreases bytes.len(),
{
    if bytes.len() == 0 {
        Seq::empty()
    } else {
        let before = keys_from(bytes.drop_last());
        match kb_key_after(bytes) {
            Some(k) => before.push(k),
            None => before,
        }
    }
}

/// The keyboard: the PS/2 decoder, between scan codes.
pub struct KeyboardState {
    decoder: PcKeyboard,
}

impl KeyboardState {
    /// The decoder holds no undecoded key event between calls.
    pub closed spec fn wf(&self) -> bool {
        !kb_has_pending(self.decoder)
    }

    /// Every scan code fed so far, oldest first.
    pub closed spec fn fed(&self) -> Seq<u8> {
        kb_fed(self.decoder)
    }

    /// Every key decoded so far, oldest first.
    pub open spec fn decoded(&self) -> Seq<KeyInput> {
        keys_from(self.fed())
    }

    pub fn new() -> (r: Self)
        ensures
            r.wf(),
            r.fed() == Seq::<u8>::empty(),
            r.decoded() == Seq::<KeyInput>::empty(),
    {
        KeyboardState { decoder: new_ps2_keyboard() }
    }

    /// Feeds one scan code; a key comes out when it completes a key event that
    /// decodes to one, and a refused byte yields none.
    pub fn feed(&mut self, sc: u8) -> (r: Option<KeyInput>)
        requires
            old(self).wf(),
        ensures
            final(self).wf(),
            final(self).fed() == old(self).fed().push(sc),
            r == kb_key_after(final(self).fed()),
            final(self).decoded() == match r {
                Some(k) => old(self).decoded().push(k),
                None => old(self).decoded(),
            },
    {
        let r = if ps2_add_byte(&mut self.decoder, sc) {
            ps2_process_keyevent(&mut self.decoder)
        } else {
            None
        };
        proof {
            assert(self.fed().drop_last() =~= old(self).fed());
        }
        r
    }
}

} // verus!
