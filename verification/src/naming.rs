//! Deterministic artifact names: decimal rendering, 3-digit zero padding,
//! and the intermediate- and final-artifact name formats.
use crate::transform::{stage_extension_spec, stage_stem_spec, Transform};
use vstd::prelude::*;
use vstd::string::StringExecFns;

verus! {

/// The digit character of a value below ten.
pub open spec fn dec_digit(d: nat) -> char {
    if d == 0 {
        '0'
    } else if d == 1 {
        '1'
    } else if d == 2 {
        '2'
    } else if d == 3 {
        '3'
    } else if d == 4 {
        '4'
    } else if d == 5 {
        '5'
    } else if d == 6 {
        '6'
    } else if d == 7 {
        '7'
    } else if d == 8 {
        '8'
    } else {
        '9'
    }
}

/// The decimal spelling of a value, most significant digit first, with no
/// leading zeros (a single zero for zero).
pub open spec fn dec_spec(n: nat) -> Seq<char>
    decreases n,
{
    if n < 10 {
        seq![dec_digit(n)]
    } else {
        dec_spec(n / 10).push(dec_digit(n % 10))
    }
}

/// The decimal spelling padded with zeros to at least three digits.
pub open spec fn pad3_spec(n: nat) -> Seq<char> {
    if n < 10 {
        seq!['0', '0'] + dec_spec(n)
    } else if n < 100 {
        seq!['0'] + dec_spec(n)
    } else {
        dec_spec(n)
    }
}

/// The single-character string of one decimal digit.
fn digit_str(d: u64) -> (r: &'static str)
    requires
        d < 10,
    ensures
        r@ == seq![dec_digit(d as nat)],
{
    proof {
        reveal_strlit("0");
        reveal_strlit("1");
        reveal_strlit("2");
        reveal_strlit("3");
        reveal_strlit("4");
        reveal_strlit("5");
        reveal_strlit("6");
        reveal_strlit("7");
        reveal_strlit("8");
        reveal_strlit("9");
    }
    if d == 0 {
        proof {
            assert("0"@ =~= seq![dec_digit(0)]);
        }
        "0"
    } else if d == 1 {
        proof {
            assert("1"@ =~= seq![dec_digit(1)]);
        }
        "1"
    } else if d == 2 {
        proof {
            assert("2"@ =~= seq![dec_digit(2)]);
        }
        "2"
    } else if d == 3 {
        proof {
            assert("3"@ =~= seq![dec_digit(3)]);
        }
        "3"
    } else if d == 4 {
        proof {
            assert("4"@ =~= seq![dec_digit(4)]);
        }
        "4"
    } else if d == 5 {
        proof {
            assert("5"@ =~= seq![dec_digit(5)]);
        }
        "5"
    } else if d == 6 {
        proof {
            assert("6"@ =~= seq![dec_digit(6)]);
        }
        "6"
    } else if d == 7 {
        proof {
            assert("7"@ =~= seq![dec_digit(7)]);
        }
        "7"
    } else if d == 8 {
        proof {
            assert("8"@ =~= seq![dec_digit(8)]);
        }
        "8"
    } else {
        proof {
            assert("9"@ =~= seq![dec_digit(9)]);
        }
        "9"
    }
}

/// Renders a value in decimal.
pub fn dec_str(n: u64) -> (r: String)
    ensures
        r@ == dec_spec(n as nat),
    decreases n,
{
    if n < 10 {
        String::from_str(digit_str(n))
    } else {
        let mut s = dec_str(n / 10);
        s.append(digit_str(n % 10));
        proof {
            assert(dec_spec((n / 10) as nat).push(dec_digit((n % 10) as nat)) =~= dec_spec(
                (n / 10) as nat,
            ) + seq![dec_digit((n % 10) as nat)]);
        }
        s
    }
}

/// Renders a value in decimal, zero-padded to at least three digits.
pub fn pad3_str(n: u64) -> (r: String)
    ensures
        r@ == pad3_spec(n as nat),
{
    if n < 10 {
        let mut s = String::from_str("00");
        let d = dec_str(n);
        s.append(d.as_str());
        proof {
            reveal_strlit("00");
            assert("00"@ =~= seq!['0', '0']);
        }
        s
    } else if n < 100 {
        let mut s = String::from_str("0");
        let d = dec_str(n);
        s.append(d.as_str());
        proof {
            reveal_strlit("0");
            assert("0"@ =~= seq!['0']);
        }
        s
    } else {
        dec_str(n)
    }
}

/// The name of the intermediate artifact written after forward step
/// `step` (1-based): the zero-padded step, the stage's stem, and the
/// stage's extension.
pub open spec fn encode_artifact_name_spec(step: nat, t: Transform) -> Seq<char> {
    pad3_spec(step) + "_"@ + stage_stem_spec(t) + "."@ + stage_extension_spec(t)
}

/// The name of the intermediate artifact written after a reverse step:
/// the zero-padded count of stages still to undo, the undone stage's stem,
/// a `_decoded` marker, and the extension the buffer now has (the
/// preceding forward stage's, or the raw-image extension at the end).
pub open spec fn decode_artifact_name_spec(step: nat, t: Transform, ext: Seq<char>) -> Seq<char> {
    pad3_spec(step) + "_"@ + stage_stem_spec(t) + "_decoded."@ + ext
}

/// Builds the forward-direction intermediate artifact name.
pub fn encode_artifact_name(step: u64, t: &Transform) -> (r: String)
    ensures
        r@ == encode_artifact_name_spec(step as nat, *t),
{
    let mut s = pad3_str(step);
    s.append("_");
    s.append(t.stem());
    s.append(".");
    s.append(t.extension());
    s
}

/// Builds the reverse-direction intermediate artifact name.
pub fn decode_artifact_name(step: u64, t: &Transform, ext: &str) -> (r: String)
    ensures
        r@ == decode_artifact_name_spec(step as nat, *t, ext@),
{
    let mut s = pad3_str(step);
    s.append("_");
    s.append(t.stem());
    s.append("_decoded.");
    s.append(ext);
    s
}

} // verus!
