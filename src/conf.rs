//! The key's management configuration: which USB functions are enabled and
//! whether the key takes a new configuration, read from and written to the
//! blob that the key hands out (a length byte, then records).
use vstd::prelude::*;
use vstd::slice::slice_subrange;
use crate::tlv::{decode, encode, lemma_write_appends_record, Iter};

verus! {

/// Record holding the firmware version as three bytes.
pub const TAG_VERSION: u16 = 0x05;

/// Record holding the bit set of enabled USB functions, two bytes big-endian.
pub const TAG_USB_ENABLED: u16 = 0x03;

/// Empty record that asks the key to reboot after a write.
pub const TAG_REBOOT: u16 = 0x0c;

/// The OTP application's bit among the USB functions.
pub const APPLICATION_OTP: u16 = 0x01;

/// The smart-card reader transport's bit among the USB functions.
pub const TRANSPORT_CCID: u16 = 0x04;

/// The parts of the configuration that this library reads and changes.
#[derive(Debug)]
pub struct Conf {
    /// The enabled USB functions, if the key reported them.
    pub usb_enabled: Option<u16>,
    /// Whether the key's firmware takes a configuration write (5.0.0 or later).
    pub can_write: bool,
}

/// Records of the two kinds read here have the sizes those kinds call for.
pub open spec fn records_ok(recs: Seq<(u16, Seq<u8>)>) -> bool {
    forall|i: int|
        0 <= i < recs.len() ==> (#[trigger] recs[i].0 == TAG_USB_ENABLED ==> recs[i].1.len() == 2)
            && (recs[i].0 == TAG_VERSION ==> recs[i].1.len() == 3)
}

/// The value of the last USB-functions record, if any.
pub open spec fn usb_of(recs: Seq<(u16, Seq<u8>)>) -> Option<u16>
    decreases recs.len(),
{
    if recs.len() == 0 {
        None
    } else if recs.last().0 == TAG_USB_ENABLED {
        Some(((recs.last().1[0] as u16) << 8u16) | (recs.last().1[1] as u16))
    } else {
        usb_of(recs.drop_last())
    }
}

/// Whether some version record names major version 5 or later.
pub open spec fn writable_of(recs: Seq<(u16, Seq<u8>)>) -> bool
    decreases recs.len(),
{
    if recs.len() == 0 {
        false
    } else {
        writable_of(recs.drop_last()) || (recs.last().0 == TAG_VERSION && recs.last().1[0] >= 5)
    }
}

/// The records of a blob whose first byte gives the length of the rest.
pub open spec fn blob_records(blob: Seq<u8>) -> Seq<(u16, Seq<u8>)> {
    decode(blob.drop_first())
}

/// A blob that `from_device` accepts.
pub open spec fn blob_ok(blob: Seq<u8>) -> bool {
    blob.len() >= 1 && blob[0] == blob.len() - 1 && records_ok(blob_records(blob))
}

/// The records that `to_device` writes, after the length byte.
pub open spec fn conf_body(usb_enabled: Option<u16>, reset: bool) -> Seq<u8> {
    (match usb_enabled {
        Some(v) => encode(TAG_USB_ENABLED, seq![#[verifier::truncate] ((v >> 8u16) as u8), #[verifier::truncate] (v as u8)]),
        None => Seq::empty(),
    }) + (if reset {
        encode(TAG_REBOOT, Seq::empty())
    } else {
        Seq::empty()
    })
}

impl Conf {
    /// Reads the configuration from the blob the key returned. `None` when the
    /// blob is empty, when its length byte is not the length of the rest, or
    /// when a USB-functions or version record has the wrong size.
    pub fn from_device(conf: &[u8]) -> (r: Option<Conf>)
        ensures
            r is Some <==> blob_ok(conf@),
            r matches Some(c) ==> c.usb_enabled == usb_of(blob_records(conf@)) && c.can_write
                == writable_of(blob_records(conf@)),
    {
        if conf.len() == 0 {
            return None;
        }
        let clen = conf[0];
        let rest = slice_subrange(conf, 1, conf.len());
        assert(rest@ =~= conf@.drop_first());
        if clen as usize != rest.len() {
            return None;
        }
        let mut usb_enabled: Option<u16> = None;
        let mut can_write = false;
        let mut it = Iter::new(rest);
        let ghost all = decode(rest@);
        let ghost mut done: Seq<(u16, Seq<u8>)> = Seq::empty();
        loop
            invariant
                it.wf(),
                all == decode(rest@),
                all == blob_records(conf@),
                done + it.rest() == all,
                usb_enabled == usb_of(done),
                can_write == writable_of(done),
                records_ok(done),
            ensures
                done == all,
                usb_enabled == usb_of(done),
                can_write == writable_of(done),
                records_ok(done),
            decreases it.rest().len(),
        {
            let ghost before = it.rest();
            match it.next() {
                None => {
                    assert(done =~= all);
                    break ;
                },
                Some((tag, val)) => {
                    assert(all[done.len() as int] == before[0]);
                    assert(before[0] == (tag, val@));
                    if tag == TAG_USB_ENABLED {
                        if val.len() != 2 {
                            assert(all[done.len() as int].0 == tag);
                            assert(!records_ok(all));
                            return None;
                        }
                        usb_enabled = Some(((val[0] as u16) << 8u16) | (val[1] as u16));
                    }
                    if tag == TAG_VERSION {
                        if val.len() != 3 {
                            assert(all[done.len() as int].0 == tag);
                            assert(!records_ok(all));
                            return None;
                        }
                        if val[0] >= 5 {
                            can_write = true;
                        }
                    }
                    proof {
                        let d2 = done.push((tag, val@));
                        assert(d2.drop_last() =~= done);
                        assert(d2 + it.rest() =~= all);
                        done = d2;
                    }
                },
            }
        }
        Some(Conf { usb_enabled, can_write })
    }

    /// Whether every bit of `func` is set among the enabled USB functions
    /// (none are, when the key did not report them).
    pub fn is_usb_enabled(&self, func: u16) -> (r: bool)
        ensures
            r == ((self.usb_enabled.unwrap_or(0) & func) == func),
    {
        let v = match self.usb_enabled {
            Some(v) => v,
            None => 0,
        };
        (v & func) == func
    }

    /// Sets or clears the bits of `func` among the enabled USB functions.
    pub fn set_usb_enabled(&mut self, func: u16, enabled: bool)
        ensures
            final(self).usb_enabled == Some(
                if enabled {
                    old(self).usb_enabled.unwrap_or(0) | func
                } else {
                    old(self).usb_enabled.unwrap_or(0) & !func
                },
            ),
            final(self).can_write == old(self).can_write,
    {
        let mut val = match self.usb_enabled {
            Some(v) => v,
            None => 0,
        };
        if enabled {
            val = val | func;
        } else {
            val = val & !func;
        }
        self.usb_enabled = Some(val);
    }

    /// Appends the blob to write back: a length byte, the USB-functions
    /// record if the value is known, and a reboot record if `reset` is set.
    pub fn to_device(&self, reset: bool, out: &mut Vec<u8>)
        requires
            old(out)@.len() + 8 <= usize::MAX,
        ensures
            final(out)@ == old(out)@ + seq![conf_body(self.usb_enabled, reset).len() as u8]
                + conf_body(self.usb_enabled, reset),
    {
        let ghost start_bytes = out@;
        let start = out.len();
        out.push(0);
        assert((0x03u16 >> 8u16) == 0 && (0x0cu16 >> 8u16) == 0) by (bit_vector);
        let ghost usb_part: Seq<u8> = match self.usb_enabled {
            Some(v) => encode(TAG_USB_ENABLED, seq![#[verifier::truncate] ((v >> 8u16) as u8), #[verifier::truncate] (v as u8)]),
            None => Seq::empty(),
        };
        if let Some(val) = self.usb_enabled {
            assert((val >> 8u16) <= 0xff) by (bit_vector);
            let bytes: [u8; 2] = [(val >> 8u16) as u8, #[verifier::truncate] (val as u8)];
            assert(bytes@ =~= seq![(val >> 8u16) as u8, #[verifier::truncate] (val as u8)]);
            crate::tlv::write(out, TAG_USB_ENABLED, bytes.as_slice());
        }
        assert(out@ =~= start_bytes + seq![0u8] + usb_part);
        if reset {
            let empty: [u8; 0] = [];
            assert(empty@ =~= Seq::<u8>::empty());
            crate::tlv::write(out, TAG_REBOOT, empty.as_slice());
        }
        let body_len = out.len() - start - 1;
        assert(out@ =~= start_bytes + seq![0u8] + conf_body(self.usb_enabled, reset));
        out.set(start, body_len as u8);
        assert(out@ =~= start_bytes + seq![conf_body(self.usb_enabled, reset).len() as u8]
            + conf_body(self.usb_enabled, reset));
    }
}

/// The blob that `to_device` writes is one that `from_device` accepts, and
/// it reads back the same USB functions and no permission to write.
pub proof fn lemma_blob_round_trip(usb_enabled: Option<u16>, reset: bool)
    ensures
        ({
            let body = conf_body(usb_enabled, reset);
            let blob = seq![body.len() as u8] + body;
            &&& blob_ok(blob)
            &&& usb_of(blob_records(blob)) == usb_enabled
            &&& !writable_of(blob_records(blob))
        }),
{
    let body = conf_body(usb_enabled, reset);
    let blob = seq![body.len() as u8] + body;
    assert(blob.drop_first() =~= body);
    assert((0x03u16 >> 8u16) == 0 && (0x03u16 & 0x1f) != 0x1f) by (bit_vector);
    assert((0x0cu16 >> 8u16) == 0 && (0x0cu16 & 0x1f) != 0x1f) by (bit_vector);
    let empty = Seq::<u8>::empty();
    assert(decode(empty) =~= Seq::<(u16, Seq<u8>)>::empty());
    assert(crate::tlv::spec_record(empty) is None);
    assert(crate::tlv::all_records(empty));
    let part1: Seq<u8> = match usb_enabled {
        Some(v) => encode(TAG_USB_ENABLED, seq![#[verifier::truncate] ((v >> 8u16) as u8), #[verifier::truncate] (v as u8)]),
        None => empty,
    };
    let recs1: Seq<(u16, Seq<u8>)> = match usb_enabled {
        Some(v) => seq![(TAG_USB_ENABLED, seq![#[verifier::truncate] ((v >> 8u16) as u8), #[verifier::truncate] (v as u8)])],
        None => Seq::empty(),
    };
    match usb_enabled {
        Some(v) => {
            let bytes = seq![#[verifier::truncate] ((v >> 8u16) as u8), #[verifier::truncate] (v as u8)];
            lemma_write_appends_record(empty, TAG_USB_ENABLED, bytes);
            assert(empty + part1 =~= part1);
            assert(decode(part1) =~= recs1);
            let hi = #[verifier::truncate] ((v >> 8u16) as u8);
            let lo = #[verifier::truncate] (v as u8);
            assert((((hi as u16) << 8u16) | (lo as u16)) == v) by (bit_vector)
                requires
                    hi == (v >> 8u16) as u8,
                    lo == v as u8,
            ;
            assert(recs1.drop_last() =~= Seq::<(u16, Seq<u8>)>::empty());
            assert(usb_of(recs1) == usb_enabled);
            assert(!writable_of(recs1.drop_last()));
            assert(!writable_of(recs1));
        },
        None => {
            assert(part1 =~= empty);
        },
    }
    assert(!writable_of(recs1));
    assert(records_ok(recs1));
    let recs: Seq<(u16, Seq<u8>)> = if reset {
        recs1 + seq![(TAG_REBOOT, empty)]
    } else {
        recs1
    };
    if reset {
        lemma_write_appends_record(part1, TAG_REBOOT, empty);
        assert(body =~= part1 + encode(TAG_REBOOT, empty));
        assert(recs.drop_last() =~= recs1);
    } else {
        assert(body =~= part1);
    }
    assert(decode(body) == recs);
    assert(records_ok(recs));
    assert(usb_of(recs) == usb_enabled);
    assert(!writable_of(recs));
    assert(body.len() <= 6);
}

} // verus!
