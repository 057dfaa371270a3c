//! The configuration model: device descriptors and their rendering.

use vstd::prelude::*;
use vstd::string::StringExecFns;

verus! {

/// How a configured device is recognised among the live serial ports.
#[derive(Debug, PartialEq, Eq)]
pub enum DeviceIdentifier {
    /// Exact match on the USB vendor and product identifier pair.
    VidPid { vid: u16, pid: u16 },
    /// The given text must occur inside the reported port name.
    NameFragment { fragment: String },
}

/// Spec-level image of a `DeviceIdentifier`.
pub enum DeviceIdentifierView {
    VidPid { vid: u16, pid: u16 },
    NameFragment { fragment: Seq<char> },
}

impl View for DeviceIdentifier {
    type V = DeviceIdentifierView;

    open spec fn view(&self) -> DeviceIdentifierView {
        match *self {
            DeviceIdentifier::VidPid { vid, pid } => DeviceIdentifierView::VidPid { vid, pid },
            DeviceIdentifier::NameFragment { fragment } => DeviceIdentifierView::NameFragment {
                fragment: fragment@,
            },
        }
    }
}

impl Clone for DeviceIdentifier {
    fn clone(&self) -> (r: Self)
        ensures
            r@ == self@,
    {
        match self {
            DeviceIdentifier::VidPid { vid, pid } => DeviceIdentifier::VidPid {
                vid: *vid,
                pid: *pid,
            },
            DeviceIdentifier::NameFragment { fragment } => DeviceIdentifier::NameFragment {
                fragment: fragment.clone(),
            },
        }
    }
}

/// One configured device descriptor. Descriptors are loaded once and then
/// only read; duplicates are allowed and are matched independently.
#[derive(Debug, PartialEq, Eq)]
pub struct DeviceConfig {
    pub identifier: DeviceIdentifier,
    /// Descriptive metadata only; nothing here acts on it.
    pub has_bootloader: bool,
    pub display_name: Option<String>,
}

/// Spec-level image of a `DeviceConfig`.
pub struct DeviceConfigView {
    pub identifier: DeviceIdentifierView,
    pub has_bootloader: bool,
    pub display_name: Option<Seq<char>>,
}

impl View for DeviceConfig {
    type V = DeviceConfigView;

    open spec fn view(&self) -> DeviceConfigView {
        DeviceConfigView {
            identifier: self.identifier@,
            has_bootloader: self.has_bootloader,
            display_name: match self.display_name {
                Some(name) => Some(name@),
                None => None,
            },
        }
    }
}

impl Clone for DeviceConfig {
    fn clone(&self) -> (r: Self)
        ensures
            r@ == self@,
    {
        DeviceConfig {
            identifier: self.identifier.clone(),
            has_bootloader: self.has_bootloader,
            display_name: match &self.display_name {
                Some(name) => Some(name.clone()),
                None => None,
            },
        }
    }
}

/// The loaded system configuration: the ordered list of known devices.
#[derive(Debug)]
pub struct Config {
    pub devices: Vec<DeviceConfig>,
}

/// The lowercase hexadecimal digit for a value below sixteen.
pub open spec fn hex_digit(n: int) -> char {
    if n == 0 {
        '0'
    } else if n == 1 {
        '1'
    } else if n == 2 {
        '2'
    } else if n == 3 {
        '3'
    } else if n == 4 {
        '4'
    } else if n == 5 {
        '5'
    } else if n == 6 {
        '6'
    } else if n == 7 {
        '7'
    } else if n == 8 {
        '8'
    } else if n == 9 {
        '9'
    } else if n == 10 {
        'a'
    } else if n == 11 {
        'b'
    } else if n == 12 {
        'c'
    } else if n == 13 {
        'd'
    } else if n == 14 {
        'e'
    } else {
        'f'
    }
}

/// Exactly four lowercase hexadecimal digits, zero-padded.
pub open spec fn hex4(v: u16) -> Seq<char> {
    seq![
        hex_digit(v as int / 0x1000 % 16),
        hex_digit(v as int / 0x100 % 16),
        hex_digit(v as int / 0x10 % 16),
        hex_digit(v as int % 16),
    ]
}

/// The base text of a rendered descriptor: `VID:xxxx|PID:yyyy` for the
/// vendor/product form, the identifier text itself for the name form.
pub open spec fn identifier_text(id: DeviceIdentifierView) -> Seq<char> {
    match id {
        DeviceIdentifierView::VidPid { vid, pid } => seq!['V', 'I', 'D', ':'] + hex4(vid) + seq![
            '|',
            'P',
            'I',
            'D',
            ':',
        ] + hex4(pid),
        DeviceIdentifierView::NameFragment { fragment } => fragment,
    }
}

/// The full rendering: the base text, then ` (name)` when a display name is
/// set, then `[bootloader]` when the flag is set.
pub open spec fn rendered(d: DeviceConfigView) -> Seq<char> {
    identifier_text(d.identifier) + (match d.display_name {
        Some(name) => seq![' ', '('] + name + seq![')'],
        None => Seq::<char>::empty(),
    }) + (if d.has_bootloader {
        seq!['[', 'b', 'o', 'o', 't', 'l', 'o', 'a', 'd', 'e', 'r', ']']
    } else {
        Seq::<char>::empty()
    })
}

/// The text of one lowercase hexadecimal digit.
fn hex_digit_text(n: u16) -> (r: &'static str)
    requires
        n < 16,
    ensures
        r@ == seq![hex_digit(n as int)],
{
    proof {
        reveal_strlit("0");
        reveal_strlit("1");
        reveal_strlit("2");
        reveal_strlit("3");
        reveal_strlit("4");
        reveal_strlit("5");
        reveal_strlit("6");
        reveal_strlit("7");
        reveal_strlit("8");
        reveal_strlit("9");
        reveal_strlit("a");
        reveal_strlit("b");
        reveal_strlit("c");
        reveal_strlit("d");
        reveal_strlit("e");
        reveal_strlit("f");
    }
    let r = if n == 0 {
        "0"
    } else if n == 1 {
        "1"
    } else if n == 2 {
        "2"
    } else if n == 3 {
        "3"
    } else if n == 4 {
        "4"
    } else if n == 5 {
        "5"
    } else if n == 6 {
        "6"
    } else if n == 7 {
        "7"
    } else if n == 8 {
        "8"
    } else if n == 9 {
        "9"
    } else if n == 10 {
        "a"
    } else if n == 11 {
        "b"
    } else if n == 12 {
        "c"
    } else if n == 13 {
        "d"
    } else if n == 14 {
        "e"
    } else {
        "f"
    };
    proof {
        assert(r@ =~= seq![hex_digit(n as int)]);
    }
    r
}

/// Appends the four-digit lowercase hexadecimal form of `v`.
fn push_hex4(s: &mut String, v: u16)
    ensures
        final(s)@ == old(s)@ + hex4(v),
{
    s.append(hex_digit_text(v / 0x1000 % 16));
    s.append(hex_digit_text(v / 0x100 % 16));
    s.append(hex_digit_text(v / 0x10 % 16));
    s.append(hex_digit_text(v % 16));
    proof {
        assert(s@ =~= old(s)@ + hex4(v));
    }
}

impl DeviceConfig {
    /// The human-readable form of this descriptor.
    pub fn render(&self) -> (r: String)
        ensures
            r@ == rendered(self@),
    {
        let mut s = String::new();
        match &self.identifier {
            DeviceIdentifier::VidPid { vid, pid } => {
                s.append("VID:");
                push_hex4(&mut s, *vid);
                s.append("|PID:");
                push_hex4(&mut s, *pid);
                proof {
                    reveal_strlit("VID:");
                    reveal_strlit("|PID:");
                    assert(s@ =~= identifier_text(self@.identifier));
                }
            },
            DeviceIdentifier::NameFragment { fragment } => {
                s.append(fragment.as_str());
                proof {
                    assert(s@ =~= identifier_text(self@.identifier));
                }
            },
        }
        if let Some(name) = &self.display_name {
            s.append(" (");
            s.append(name.as_str());
            s.append(")");
            proof {
                reveal_strlit(" (");
                reveal_strlit(")");
            }
        }
        if self.has_bootloader {
            s.append("[bootloader]");
            proof {
                reveal_strlit("[bootloader]");
            }
        }
        proof {
            assert(s@ =~= rendered(self@));
        }
        s
    }
}

} // verus!
