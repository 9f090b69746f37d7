//! Validation of the selected mode against the inputs, dispatch to the hash
//! primitive, and assembly of the printable report.

use vstd::prelude::*;
use crate::parse::ParseErrorKind;
use crate::parse::parse_number;
use crate::parse::spec_parse_number;
use crate::tip5::pair_digest_of;
use crate::tip5::varlen_digest_of;
use crate::tip5::tip5_hash_pair;
use crate::tip5::tip5_hash_varlen;

verus! {

/// Which hash operation is requested: a fixed pair of field elements, or a
/// variable-length sequence of them.
#[derive(Debug, Clone, Copy, PartialEq, Eq, Structural)]
pub enum Mode {
    Pair,
    Varlen,
}

/// An input that the tool rejects; detected before any hash is computed.
#[derive(Debug)]
pub enum CliError {
    /// A literal could not be converted to a field element.
    Parse { literal: String, kind: ParseErrorKind },
    /// The number of inputs does not fit the selected mode.
    Validation { mode: Mode, given: usize },
}

/// The views of a sequence of owned strings.
pub open spec fn views(ins: Seq<String>) -> Seq<Seq<char>> {
    ins.map_values(|s: String| s@)
}

/// Whether `n` inputs are acceptable for `mode`: exactly two for `Pair`, at
/// least two for `Varlen`.
pub open spec fn count_ok(mode: Mode, n: nat) -> bool {
    match mode {
        Mode::Pair => n == 2,
        Mode::Varlen => n >= 2,
    }
}

/// Whether every literal parses to a field element.
pub open spec fn all_parse_ok(ins: Seq<Seq<char>>) -> bool {
    forall|i: int| 0 <= i < ins.len() ==> (#[trigger] spec_parse_number(ins[i])) is Ok
}

/// The parsed value of each literal, in input order.
pub open spec fn parsed_values(ins: Seq<Seq<char>>) -> Seq<u64> {
    ins.map_values(|s: Seq<char>| spec_parse_number(s)->Ok_0)
}

/// The literals joined with a comma and a space, in input order.
pub open spec fn comma_join(ins: Seq<Seq<char>>) -> Seq<char>
    decreases ins.len(),
{
    if ins.len() == 0 {
        Seq::empty()
    } else if ins.len() == 1 {
        ins[0]
    } else {
        comma_join(ins.drop_last()) + ", "@ + ins.last()
    }
}

/// The full report for valid inputs: a confirmation line naming the mode and
/// echoing the literals, then the digest line.
pub open spec fn spec_output(mode: Mode, ins: Seq<Seq<char>>) -> Seq<char> {
    match mode {
        Mode::Pair => "Hash pair mode ["@ + ins[0] + ", "@ + ins[1] + "]:\nResult: "@
            + pair_digest_of(spec_parse_number(ins[0])->Ok_0, spec_parse_number(ins[1])->Ok_0),
        Mode::Varlen => "Hash varlen mode ["@ + comma_join(ins) + "]:\nResult: "@
            + varlen_digest_of(parsed_values(ins)),
    }
}

/// The failure that the tool reports when a literal does not parse: the
/// error of the first such literal, together with that literal.
pub open spec fn reports_first_parse_error(
    ins: Seq<Seq<char>>,
    literal: Seq<char>,
    kind: ParseErrorKind,
) -> bool {
    exists|i: int|
        {
            &&& 0 <= i < ins.len()
            &&& (forall|j: int| 0 <= j < i ==> (#[trigger] spec_parse_number(ins[j])) is Ok)
            &&& #[trigger] spec_parse_number(ins[i]) == Err::<u64, ParseErrorKind>(kind)
            &&& literal == ins[i]
        }
}

/// Check the input count against the mode, parse every literal, hash
/// according to the mode, and return the printable report. Inputs are
/// rejected with `Validation` when their number does not fit the mode, and
/// with `Parse` when a literal is no valid number; the first bad literal
/// wins.
pub fn run(mode: Mode, inputs: &Vec<String>) -> (r: Result<String, CliError>)
    ensures
        !count_ok(mode, inputs@.len()) ==> r == Err::<String, CliError>(
            (CliError::Validation { mode, given: inputs@.len() as usize }),
        ),
        count_ok(mode, inputs@.len()) && all_parse_ok(views(inputs@)) ==> (r matches Ok(out)
            && out@ == spec_output(mode, views(inputs@))),
        count_ok(mode, inputs@.len()) && !all_parse_ok(views(inputs@)) ==> (r matches Err(e)
            && (e matches CliError::Parse { literal, kind } && reports_first_parse_error(
            views(inputs@),
            literal@,
            kind,
        ))),
{
    let ghost ins = views(inputs@);
    match mode {
        Mode::Pair => {
            if inputs.len() != 2 {
                return Err(CliError::Validation { mode, given: inputs.len() });
            }
            let v0 = match parse_number(inputs[0].as_str()) {
                Ok(v) => v,
                Err(kind) => {
                    proof {
                        assert(spec_parse_number(ins[0]) == Err::<u64, ParseErrorKind>(kind));
                        assert(reports_first_parse_error(ins, ins[0], kind));
                    }
                    return Err(CliError::Parse { literal: inputs[0].clone(), kind });
                },
            };
            let v1 = match parse_number(inputs[1].as_str()) {
                Ok(v) => v,
                Err(kind) => {
                    proof {
                        assert(spec_parse_number(ins[1]) == Err::<u64, ParseErrorKind>(kind));
                        assert(reports_first_parse_error(ins, ins[1], kind));
                    }
                    return Err(CliError::Parse { literal: inputs[1].clone(), kind });
                },
            };
            let digest = tip5_hash_pair(v0, v1);
            let mut out = String::from_str("Hash pair mode [");
            out.append(inputs[0].as_str());
            out.append(", ");
            out.append(inputs[1].as_str());
            out.append("]:\nResult: ");
            out.append(digest.as_str());
            proof {
                assert(out@ =~= spec_output(mode, ins));
            }
            Ok(out)
        },
        Mode::Varlen => {
            if inputs.len() < 2 {
                return Err(CliError::Validation { mode, given: inputs.len() });
            }
            let mut values: Vec<u64> = Vec::new();
            let mut i: usize = 0;
            while i < inputs.len()
                invariant
                    i <= inputs@.len(),
                    2 <= inputs@.len(),
                    mode == Mode::Varlen,
                    ins == views(inputs@),
                    values@ == parsed_values(ins.take(i as int)),
                    forall|j: int| 0 <= j < i ==> (#[trigger] spec_parse_number(ins[j])) is Ok,
                decreases inputs@.len() - i,
            {
                match parse_number(inputs[i].as_str()) {
                    Ok(v) => {
                        values.push(v);
                        proof {
                            assert(ins.take(i as int + 1).drop_last() =~= ins.take(i as int));
                            assert(values@ =~= parsed_values(ins.take(i as int + 1)));
                        }
                    },
                    Err(kind) => {
                        proof {
                            assert(spec_parse_number(ins[i as int]) == Err::<
                                u64,
                                ParseErrorKind,
                            >(kind));
                            assert(reports_first_parse_error(ins, ins[i as int], kind));
                        }
                        return Err(CliError::Parse { literal: inputs[i].clone(), kind });
                    },
                }
                i = i + 1;
            }
            proof {
                assert(ins.take(inputs@.len() as int) =~= ins);
            }
            let digest = tip5_hash_varlen(&values);
            let mut out = String::from_str("Hash varlen mode [");
            out.append(inputs[0].as_str());
            let mut j: usize = 1;
            while j < inputs.len()
                invariant
                    1 <= j <= inputs@.len(),
                    2 <= inputs@.len(),
                    ins == views(inputs@),
                    out@ == "Hash varlen mode ["@ + comma_join(ins.take(j as int)),
                decreases inputs@.len() - j,
            {
                out.append(", ");
                out.append(inputs[j].as_str());
                proof {
                    assert(ins.take(j as int + 1).drop_last() =~= ins.take(j as int));
                    assert(out@ =~= "Hash varlen mode ["@ + comma_join(ins.take(j as int + 1)));
                }
                j = j + 1;
            }
            out.append("]:\nResult: ");
            out.append(digest.as_str());
            proof {
                assert(out@ =~= spec_output(mode, ins));
            }
            Ok(out)
        },
    }
}

/// The hash output is deterministic: the report is a function of the mode
/// and the input literals alone, so repeated invocations on identical
/// inputs yield an identical printed digest.
pub proof fn lemma_output_deterministic(
    mode1: Mode,
    ins1: Seq<Seq<char>>,
    mode2: Mode,
    ins2: Seq<Seq<char>>,
)
    requires
        mode1 == mode2,
        ins1 == ins2,
    ensures
        spec_output(mode1, ins1) == spec_output(mode2, ins2),
{
}

impl CliError {
    /// The text of the message for this rejection.
    pub open spec fn spec_message(self) -> Seq<char> {
        match self {
            CliError::Parse { literal: _, kind } => match kind {
                ParseErrorKind::OddHexLength => "Hex string length must be even (full bytes)"@,
                ParseErrorKind::Empty => "cannot parse integer from empty string"@,
                ParseErrorKind::InvalidDigit => "invalid digit found in string"@,
                ParseErrorKind::Overflow => "number too large to fit in target type"@,
            },
            CliError::Validation { mode: Mode::Pair, given: _ } => (
            "pair mode requires exactly 2 inputs"@),
            CliError::Validation { mode: Mode::Varlen, given: _ } => (
            "varlen mode requires at least 2 inputs"@),
        }
    }

    /// The descriptive message that is surfaced to the caller.
    pub fn message(&self) -> (r: String)
        ensures
            r@ == self.spec_message(),
    {
        match self {
            CliError::Parse { literal: _, kind } => match kind {
                ParseErrorKind::OddHexLength => String::from_str(
                    "Hex string length must be even (full bytes)",
                ),
                ParseErrorKind::Empty => String::from_str("cannot parse integer from empty string"),
                ParseErrorKind::InvalidDigit => String::from_str("invalid digit found in string"),
                ParseErrorKind::Overflow => String::from_str(
                    "number too large to fit in target type",
                ),
            },
            CliError::Validation { mode: Mode::Pair, given: _ } => String::from_str(
                "pair mode requires exactly 2 inputs",
            ),
            CliError::Validation { mode: Mode::Varlen, given: _ } => String::from_str(
                "varlen mode requires at least 2 inputs",
            ),
        }
    }
}

} // verus!
