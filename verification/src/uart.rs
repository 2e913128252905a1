//! PL011 UART bring-up and transmission, over a plain-value model of the
//! device's register file. The observable output — the bytes handed to the
//! transmit FIFO — is tracked alongside the registers, so contracts can
//! speak about exactly what was sent.
//!
//! The device's MMIO base is read from the platform's device tree; probing
//! the tree is the one place this kernel leans on an outside parser.

use vstd::prelude::*;
use vstd::std_specs::iter::IteratorSpec;
use vstd::string::StringSliceAdditionalSpecFns;

verus! {

/// The PL011 register file, as plain values. Offsets on the device run
/// from the data register at the base through the DMA control register.
#[derive(Debug, Eq, PartialEq, Clone, Copy, Structural)]
pub struct UARTRegisters {
    pub dr: u32,
    pub rsrecr: u32,
    pub fr: u32,
    pub ilpr: u32,
    pub ibrd: u32,
    pub fbrd: u32,
    pub lcrh: u32,
    pub cr: u32,
    pub ifls: u32,
    pub imsc: u32,
    pub ris: u32,
    pub mis: u32,
    pub icr: u32,
    pub dmacr: u32,
}

/// A register file in its power-on state.
pub fn reset_registers() -> (r: UARTRegisters)
    ensures
        r == (UARTRegisters {
            dr: 0,
            rsrecr: 0,
            fr: 0,
            ilpr: 0,
            ibrd: 0,
            fbrd: 0,
            lcrh: 0,
            cr: 0,
            ifls: 0,
            imsc: 0,
            ris: 0,
            mis: 0,
            icr: 0,
            dmacr: 0,
        }),
{
    UARTRegisters {
        dr: 0,
        rsrecr: 0,
        fr: 0,
        ilpr: 0,
        ibrd: 0,
        fbrd: 0,
        lcrh: 0,
        cr: 0,
        ifls: 0,
        imsc: 0,
        ris: 0,
        mis: 0,
        icr: 0,
        dmacr: 0,
    }
}

/// Where a peripheral's bus address lands in the physical address map: the
/// legacy bus window is relocated, every other address is used as given.
pub open spec fn spec_translate_bus_address(a: usize) -> int {
    if a & 0xff00_0000 == 0x7e00_0000 {
        a + 0xf000_0000
    } else {
        a as int
    }
}

/// Translate a peripheral bus address to its physical address.
pub fn translate_bus_address(a: usize) -> (r: usize)
    requires
        (a & 0xff00_0000 == 0x7e00_0000) ==> a + 0xf000_0000 <= usize::MAX,
    ensures
        r as int == spec_translate_bus_address(a),
{
    if a & 0xff00_0000 == 0x7e00_0000 {
        a + 0xf000_0000
    } else {
        a
    }
}

/// The byte a character puts on the wire: its low eight code-point bits.
pub open spec fn char_byte(c: char) -> u8 {
    ((c as u32) % 256) as u8
}

/// The wire image of a character sequence: each character's low byte.
pub open spec fn bytes_of_chars(s: Seq<char>) -> Seq<u8> {
    s.map_values(|c: char| char_byte(c))
}

/// The PL011 UART: its register file once the device has been found and
/// mapped, and the stream of bytes handed to its transmit FIFO.
pub struct UART0 {
    uart: Option<UARTRegisters>,
    sent: Vec<u8>,
}

impl UART0 {
    /// The device's registers, once initialized.
    pub closed spec fn regs(self) -> Option<UARTRegisters> {
        self.uart
    }

    /// Every byte handed to the transmit FIFO, in order.
    pub closed spec fn transmitted(self) -> Seq<u8> {
        self.sent@
    }

    /// A driver with no device attached yet.
    pub fn new() -> (r: Self)
        ensures
            r.regs() is None,
            r.transmitted() == Seq::<u8>::empty(),
    {
        UART0 { uart: None, sent: Vec::new() }
    }

    /// The device's registers, once initialized.
    pub fn registers(&self) -> (r: Option<UARTRegisters>)
        ensures
            r == self.regs(),
    {
        self.uart
    }

    /// Every byte handed to the transmit FIFO so far, in order.
    pub fn transmitted_bytes(&self) -> (r: &Vec<u8>)
        ensures
            r@ == self.transmitted(),
    {
        &self.sent
    }

    /// Is the transmit FIFO full (flag-register bit five)?
    pub fn transmit_fifo_full(&self) -> (r: bool)
        requires
            self.regs() is Some,
        ensures
            r == (self.regs().unwrap().fr & 0x20 != 0),
    {
        match &self.uart {
            Some(regs) => regs.fr & 0x20 != 0,
            None => false,
        }
    }

    /// Transmit one character: wait until the FIFO drains — the device
    /// clears the full flag as it sends — then hand the character's low
    /// byte to the data register. Without an attached device this does
    /// nothing, as before the console exists there is nowhere to write.
    pub fn putchar(&mut self, c: char)
        ensures
            old(self).regs() is None ==> *final(self) == *old(self),
            old(self).regs() matches Some(regs) ==> {
                &&& final(self).transmitted() == old(self).transmitted().push(char_byte(c))
                &&& final(self).regs() == Some(UARTRegisters {
                    dr: char_byte(c) as u32,
                    fr: regs.fr & !0x20,
                    ..regs
                })
            },
    {
        if self.uart.is_none() {
            return;
        }
        let byte = ((c as u32) % 256) as u8;
        match &mut self.uart {
            Some(regs) => {
                // the wait for a draining FIFO, as one step: the device has
                // cleared the full flag by the time the write lands
                regs.fr = regs.fr & !0x20;
                regs.dr = byte as u32;
            },
            None => {},
        }
        self.sent.push(byte);
    }

    /// Program the device: disable it, clear interrupts, set the baud
    /// divisor (integer 26, fractional 3), eight-bit frames with FIFOs
    /// enabled, then enable transmit, receive, and the UART itself.
    pub fn init_uart(&mut self)
        requires
            old(self).regs() is Some,
        ensures
            final(self).regs() == Some(UARTRegisters {
                ibrd: 26,
                fbrd: 3,
                lcrh: 0x70,
                cr: 0x301,
                icr: 0,
                ..old(self).regs().unwrap()
            }),
            final(self).transmitted() == old(self).transmitted(),
    {
        match &mut self.uart {
            Some(uart) => {
                uart.cr = 0;
                uart.icr = 0;
                uart.ibrd = 26;
                uart.fbrd = 3;
                uart.lcrh = (0b11u32 << 5) | (0b1u32 << 4);
                uart.cr = (1u32 << 0) | (1u32 << 8) | (1u32 << 9);
                proof {
                    assert((0b11u32 << 5) | (0b1u32 << 4) == 0x70) by (bit_vector);
                    assert((1u32 << 0) | (1u32 << 8) | (1u32 << 9) == 0x301) by (bit_vector);
                }
            },
            None => {},
        }
    }

    /// Attach the device found at bus address `starting_address`: translate
    /// the address into the physical map, take the register file as the
    /// hardware leaves it at reset, and program it. Returns the translated
    /// base the register file was mapped at.
    pub fn init(&mut self, starting_address: usize) -> (base: usize)
        requires
            (starting_address & 0xff00_0000 == 0x7e00_0000) ==> starting_address + 0xf000_0000
                <= usize::MAX,
        ensures
            base as int == spec_translate_bus_address(starting_address),
            final(self).regs() == Some(UARTRegisters {
                ibrd: 26,
                fbrd: 3,
                lcrh: 0x70,
                cr: 0x301,
                ..(UARTRegisters {
                    dr: 0,
                    rsrecr: 0,
                    fr: 0,
                    ilpr: 0,
                    ibrd: 0,
                    fbrd: 0,
                    lcrh: 0,
                    cr: 0,
                    ifls: 0,
                    imsc: 0,
                    ris: 0,
                    mis: 0,
                    icr: 0,
                    dmacr: 0,
                })
            }),
            final(self).transmitted() == old(self).transmitted(),
    {
        let base = translate_bus_address(starting_address);
        self.uart = Some(reset_registers());
        self.init_uart();
        base
    }
}

/// The PL011 node's first `reg` starting address in a flattened device
/// tree, if the tree parses and holds one.
pub uninterp spec fn pl011_base_of(dtb: Seq<u8>) -> Option<u64>;

/// Relies on fdt::Fdt::new, Fdt::find_compatible and FdtNode::reg: the
/// first "arm,pl011"-compatible node's first `reg` starting address is a
/// function of the device-tree bytes alone (this crate targets a 64-bit
/// machine; the parser reads the address through the machine word, so the
/// value is exact only where addresses fit it). The precondition admits
/// only blobs shaped as [`crate::dtb::dtb_structure_ok`] demands, which
/// excludes the malformed trees on which this parser release aborts:
/// block offsets past the buffer, unit names or property names without a
/// NUL terminator or outside seven-bit bytes, property headers or values
/// past the block, name offsets past the strings block, cell-size values
/// shorter than a word, stray tokens, and nesting beyond its fixed parent
/// table. On admitted blobs every step of the call returns normally.
#[verifier::external_body]
fn find_pl011_base(dtb: &[u8]) -> (r: Option<u64>)
    requires
        crate::dtb::dtb_structure_ok(dtb@),
    ensures
        r == pl011_base_of(dtb@),
{
    let fdt = match fdt::Fdt::new(dtb) {
        Ok(f) => f,
        Err(_) => return None,
    };
    let node = match fdt.find_compatible(&["arm,pl011"]) {
        Some(n) => n,
        None => return None,
    };
    let mut regions = match node.reg() {
        Some(r) => r,
        None => return None,
    };
    regions.next().map(|region| region.starting_address as u64)
}

/// Does a discovered bus address fit this machine's address arithmetic?
pub open spec fn base_fits(b: u64) -> bool {
    &&& b <= usize::MAX as u64
    &&& (((b as usize) & 0xff00_0000 == 0x7e00_0000) ==> (b as usize) + 0xf000_0000
        <= usize::MAX)
}

impl UART0 {
    /// Probe a flattened device tree for the PL011 console and bring the
    /// device up at its translated address. Returns the mapped base, or
    /// `None` — leaving the driver untouched — when the blob is not a
    /// well-formed tree ([`crate::dtb::dtb_structure_ok`]) or holds no
    /// PL011 whose address this machine can use.
    pub fn init_from_device_tree(&mut self, dtb: &[u8]) -> (r: Option<usize>)
        ensures
            !crate::dtb::dtb_structure_ok(dtb@) ==> r is None && *final(self) == *old(self),
            crate::dtb::dtb_structure_ok(dtb@) ==> match pl011_base_of(dtb@) {
                Some(b) => {
                    if base_fits(b) {
                        &&& r matches Some(base) && base as int == spec_translate_bus_address(
                            b as usize)
                        &&& final(self).regs() == Some(UARTRegisters {
                            ibrd: 26,
                            fbrd: 3,
                            lcrh: 0x70,
                            cr: 0x301,
                            ..(UARTRegisters {
                                dr: 0,
                                rsrecr: 0,
                                fr: 0,
                                ilpr: 0,
                                ibrd: 0,
                                fbrd: 0,
                                lcrh: 0,
                                cr: 0,
                                ifls: 0,
                                imsc: 0,
                                ris: 0,
                                mis: 0,
                                icr: 0,
                                dmacr: 0,
                            })
                        })
                        &&& final(self).transmitted() == old(self).transmitted()
                    } else {
                        r is None && *final(self) == *old(self)
                    }
                },
                None => r is None && *final(self) == *old(self),
            },
    {
        if !crate::dtb::dtb_valid(dtb) {
            return None;
        }
        let base = match find_pl011_base(dtb) {
            Some(b) => b,
            None => {
                return None;
            },
        };
        if base > usize::MAX as u64 {
            return None;
        }
        let a = base as usize;
        if (a & 0xff00_0000 == 0x7e00_0000) && a > usize::MAX - 0xf000_0000 {
            return None;
        }
        Some(self.init(a))
    }
}

/// The console writer: feeds a string to the UART, character by character.
pub struct Log;

impl Log {
    /// Pass every character of `s` to the UART, in order, as the original
    /// console writer does: each character is handed to `putchar`, which
    /// transmits its low code-point byte. Without an attached device the
    /// write is a silent no-op.
    pub fn write_str(&mut self, uart: &mut UART0, s: &str)
        ensures
            old(uart).regs() is None ==> *final(uart) == *old(uart),
            old(uart).regs() is Some ==> final(uart).regs() is Some && final(
                uart).transmitted() == old(uart).transmitted() + bytes_of_chars(s@),
    {
        let ghost total = s@;
        let mut it = s.chars();
        proof {
            assert(it.remaining() == s@);
        }
        let ghost mut count: int = 0;
        loop
            invariant
                total == s@,
                0 <= count <= total.len(),
                it.remaining() =~= total.skip(count),
                old(uart).regs() is None ==> *uart == *old(uart),
                old(uart).regs() is Some ==> uart.regs() is Some && uart.transmitted() == old(
                    uart).transmitted() + bytes_of_chars(total.take(count)),
            decreases total.len() - count,
        {
            match it.next() {
                Some(c) => {
                    proof {
                        assert(c == total[count]);
                    }
                    uart.putchar(c);
                    proof {
                        if old(uart).regs() is Some {
                            assert(old(uart).transmitted() + bytes_of_chars(total.take(count
                                + 1)) =~= (old(uart).transmitted() + bytes_of_chars(total.take(
                                count))).push(char_byte(c)));
                        }
                        count = count + 1;
                    }
                },
                None => {
                    proof {
                        assert(total.skip(count).len() == 0);
                        assert(total.take(count) =~= total);
                        assert(total.take(count) == s@);
                        assert(bytes_of_chars(total.take(count)) == bytes_of_chars(s@));
                    }
                    return;
                },
            }
        }
    }
}

} // verus!
