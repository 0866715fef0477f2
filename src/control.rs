//! What the command-line tool decides: which reader names it talks to, how
//! it reads its options, and whether and how it changes the OTP setting.
use vstd::prelude::*;
use crate::conf::{Conf, APPLICATION_OTP, TRANSPORT_CCID};

verus! {

/// A byte with ASCII upper-case letters taken to lower case.
pub open spec fn ascii_lower(b: u8) -> u8 {
    if 0x41 <= b <= 0x5a {
        (b + 0x20) as u8
    } else {
        b
    }
}

/// `s` begins with `p`, ASCII letters compared without regard to case.
pub open spec fn starts_nocase(s: Seq<u8>, p: Seq<u8>) -> bool {
    s.len() >= p.len() && forall|i: int| 0 <= i < p.len() ==> ascii_lower(#[trigger] s[i]) == ascii_lower(p[i])
}

fn to_lower(b: u8) -> (r: u8)
    ensures
        r == ascii_lower(b),
{
    if 0x41 <= b && b <= 0x5a {
        b + 0x20
    } else {
        b
    }
}

/// Whether `s` begins with `p`, ASCII letters compared without regard to case.
pub fn starts_with_nocase(s: &[u8], p: &[u8]) -> (r: bool)
    ensures
        r == starts_nocase(s@, p@),
{
    if s.len() < p.len() {
        return false;
    }
    let mut i: usize = 0;
    while i < p.len()
        invariant
            i <= p@.len() <= s@.len(),
            forall|j: int| 0 <= j < i ==> ascii_lower(#[trigger] s@[j]) == ascii_lower(p@[j]),
        decreases p@.len() - i,
    {
        if to_lower(s[i]) != to_lower(p[i]) {
            return false;
        }
        i = i + 1;
    }
    true
}

/// Whether a reader name begins with one of the supported name prefixes.
pub fn is_supported(name: &[u8], supported: &[&[u8]]) -> (r: bool)
    ensures
        r == exists|i: int| 0 <= i < supported@.len() && starts_nocase(name@, #[trigger] supported@[i]@),
{
    let mut i: usize = 0;
    while i < supported.len()
        invariant
            i <= supported@.len(),
            forall|j: int| 0 <= j < i ==> !starts_nocase(name@, #[trigger] supported@[j]@),
        decreases supported@.len() - i,
    {
        if starts_with_nocase(name, supported[i]) {
            return true;
        }
        i = i + 1;
    }
    false
}

/// What the tool is asked to do with the OTP application.
#[derive(Debug, Clone, Copy, PartialEq, Eq, Structural)]
pub enum OptMode {
    Enable,
    Disable,
    Toggle,
    Show,
}

/// The tool's options.
#[derive(Debug)]
pub struct Opts {
    /// The last mode given, if any.
    pub mode: Option<OptMode>,
    /// Whether help was asked for.
    pub help: bool,
}

/// The options after reading `args` in order; an unknown argument gives its index.
pub open spec fn opts_of(args: Seq<Seq<char>>) -> Result<(Option<OptMode>, bool), nat>
    decreases args.len(),
{
    if args.len() == 0 {
        Ok((None, false))
    } else {
        match opts_of(args.drop_last()) {
            Err(i) => Err(i),
            Ok((mode, help)) => {
                let a = args.last();
                if a == seq!['-', 'e'] {
                    Ok((Some(OptMode::Enable), help))
                } else if a == seq!['-', 'd'] {
                    Ok((Some(OptMode::Disable), help))
                } else if a == seq!['-', 't'] {
                    Ok((Some(OptMode::Toggle), help))
                } else if a == seq!['-', 's'] {
                    Ok((Some(OptMode::Show), help))
                } else if a == seq!['-', 'h'] {
                    Ok((mode, true))
                } else {
                    Err((args.len() - 1) as nat)
                }
            },
        }
    }
}

/// The views of a list of strings.
pub open spec fn views(args: Seq<String>) -> Seq<Seq<char>> {
    args.map_values(|a: String| a@)
}

fn is_arg(a: &String, lit: &str) -> (r: bool)
    ensures
        r == (a@ == lit@),
{
    let owned: String = lit.to_owned();
    a.eq(&owned)
}

impl Opts {
    /// Reads the options from the arguments that follow the program's name;
    /// an unknown argument gives its index. A later mode replaces an earlier one.
    pub fn from_args(args: &Vec<String>) -> (r: Result<Opts, usize>)
        ensures
            match opts_of(views(args@)) {
                Ok((mode, help)) => r matches Ok(o) && o.mode == mode && o.help == help,
                Err(i) => r == Err::<Opts, usize>(i as usize),
            },
    {
        let mut mode: Option<OptMode> = None;
        let mut help = false;
        let mut i: usize = 0;
        proof {
            reveal_strlit("-e");
            reveal_strlit("-d");
            reveal_strlit("-t");
            reveal_strlit("-s");
            reveal_strlit("-h");
        }
        while i < args.len()
            invariant
                i <= args@.len(),
                opts_of(views(args@).take(i as int)) == Ok::<(Option<OptMode>, bool), nat>((mode, help)),
                "-e"@ == seq!['-', 'e'],
                "-d"@ == seq!['-', 'd'],
                "-t"@ == seq!['-', 't'],
                "-s"@ == seq!['-', 's'],
                "-h"@ == seq!['-', 'h'],
            decreases args@.len() - i,
        {
            let a = &args[i];
            let ghost vs = views(args@);
            assert(vs.take(i + 1).drop_last() =~= vs.take(i as int));
            assert(vs.take(i + 1).last() == a@);
            if is_arg(a, "-e") {
                mode = Some(OptMode::Enable);
            } else if is_arg(a, "-d") {
                mode = Some(OptMode::Disable);
            } else if is_arg(a, "-t") {
                mode = Some(OptMode::Toggle);
            } else if is_arg(a, "-s") {
                mode = Some(OptMode::Show);
            } else if is_arg(a, "-h") {
                help = true;
            } else {
                proof {
                    lemma_opts_error_sticks(vs, (i + 1) as int);
                }
                return Err(i);
            }
            i = i + 1;
        }
        assert(views(args@).take(i as int) =~= views(args@));
        Ok(Opts { mode, help })
    }
}

proof fn lemma_opts_error_sticks(args: Seq<Seq<char>>, n: int)
    requires
        0 <= n <= args.len(),
        opts_of(args.take(n)) is Err,
    ensures
        opts_of(args) == opts_of(args.take(n)),
    decreases args.len() - n,
{
    if n == args.len() {
        assert(args.take(n) =~= args);
    } else {
        assert(args.take(n + 1).drop_last() =~= args.take(n));
        lemma_opts_error_sticks(args, n + 1);
    }
}

/// Why the tool refuses to change the OTP setting.
#[derive(Debug, Clone, Copy, PartialEq, Eq, Structural)]
pub enum DecideError {
    /// The key's firmware does not take a configuration write.
    NotWritable,
    /// The new configuration would leave the smart-card reader transport
    /// disabled, and with it the way back to the key.
    CcidDisabled,
}

/// Whether all bits of `func` are among the enabled USB functions.
pub open spec fn enabled_in(usb_enabled: Option<u16>, func: u16) -> bool {
    (usb_enabled.unwrap_or(0) & func) == func
}

/// The OTP setting that `mode` asks for, starting from `old`.
pub open spec fn target(mode: Option<OptMode>, old: bool) -> bool {
    match mode {
        Some(OptMode::Enable) => true,
        Some(OptMode::Disable) => false,
        Some(OptMode::Toggle) => !old,
        _ => old,
    }
}

/// Decides what to do about the OTP application: `None` when it already is
/// as `mode` asks (no mode means show), the new setting to write when it is
/// not and the key can take the write, and an error when it cannot.
pub fn decide(conf: &Conf, mode: Option<OptMode>) -> (r: Result<Option<bool>, DecideError>)
    ensures
        ({
            let old = enabled_in(conf.usb_enabled, APPLICATION_OTP);
            let new = target(mode, old);
            if new == old {
                r == Ok::<Option<bool>, DecideError>(None)
            } else if !conf.can_write {
                r == Err::<Option<bool>, DecideError>(DecideError::NotWritable)
            } else if !enabled_in(conf.usb_enabled, TRANSPORT_CCID) {
                r == Err::<Option<bool>, DecideError>(DecideError::CcidDisabled)
            } else {
                r == Ok::<Option<bool>, DecideError>(Some(new))
            }
        }),
{
    let old = conf.is_usb_enabled(APPLICATION_OTP);
    let new = match mode {
        Some(OptMode::Enable) => true,
        Some(OptMode::Disable) => false,
        Some(OptMode::Toggle) => !old,
        _ => old,
    };
    if new == old {
        return Ok(None);
    }
    if !conf.can_write {
        return Err(DecideError::NotWritable);
    }
    if !conf.is_usb_enabled(TRANSPORT_CCID) {
        return Err(DecideError::CcidDisabled);
    }
    Ok(Some(new))
}

} // verus!
