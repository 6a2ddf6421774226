//! Properties of the decoder, stated and proved over its mathematical model.

use vstd::prelude::*;

use crate::decode::code_of;
use crate::decode::decode_from;
use crate::decode::decode_line;
use crate::decode::decode_spec;
use crate::decode::first_token;
use crate::decode::instr_wf;
use crate::decode::is_comment;
use crate::decode::lemma_table_name_shape;
use crate::decode::second_token;
use crate::decode::ErrModel;
use crate::decode::InstrModel;
use crate::decode::LineStep;
use crate::numbers::dec_str;
use crate::numbers::is_digit_char;
use crate::numbers::lemma_dec_str_digits;
use crate::numbers::lemma_parse_dec_str;
use crate::numbers::parse_u16_spec;
use crate::text::find_char;
use crate::text::is_space_char;
use crate::text::lemma_find_char;
use crate::text::rskip_spaces;
use crate::text::skip_spaces;
use crate::text::split_and_trim_spec;
use crate::text::split_at_char;
use crate::text::trim_all;
use crate::text::trim_spec;

verus! {

/// Decoding the single line `"<mnemonic> <value>"`, for any table mnemonic
/// and any 16-bit value written in decimal, yields exactly one record
/// carrying that mnemonic, its table code, and that operand value.
pub proof fn lemma_decode_single_line(name: Seq<char>, code: u16, v: u16)
    requires
        code_of(name) == Some(code),
    ensures
        decode_spec(name + seq![' '] + dec_str(v as int)) == Ok::<Seq<InstrModel>, ErrModel>(
            seq![InstrModel { name, code, operand: Some(v) }],
        ),
{
    lemma_table_name_shape(name);
    lemma_dec_str_digits(v as int);
    lemma_parse_dec_str(v);
    let ds = dec_str(v as int);
    let line = name + seq![' '] + ds;
    assert(line.len() == 4 + ds.len());
    assert(forall|i: int| 0 <= i < 3 ==> line[i] == name[i]);
    assert(line[3] == ' ');
    assert(forall|i: int| 4 <= i < line.len() ==> line[i] == ds[i - 4]);
    assert(forall|i: int| 4 <= i < line.len() ==> is_digit_char(#[trigger] line[i]));

    // The line holds no newline, so it splits into itself alone.
    assert(forall|j: int| 0 <= j < line.len() ==> #[trigger] line[j] != '\n');
    lemma_find_char(line, '\n', 0);
    assert(find_char(line, '\n', 0) == line.len());
    assert(split_at_char(line, '\n') == seq![line]);

    // The line begins and ends with non-space characters, so trimming keeps
    // it whole.
    assert(!is_space_char(line[0]));
    assert(skip_spaces(line, 0) == 0);
    assert(!is_space_char(line[line.len() - 1]));
    assert(rskip_spaces(line, line.len() as int) == line.len() as int);
    assert(trim_spec(line) =~= line);
    assert(trim_all(seq![line]) =~= seq![line]);
    assert(split_and_trim_spec(line) == seq![line]);

    // The line is no comment, its first token is the mnemonic, its second
    // the digits.
    assert(!is_comment(line));
    assert(forall|j: int| 0 <= j < 3 ==> #[trigger] line[j] != ' ');
    lemma_find_char(line, ' ', 0);
    assert(find_char(line, ' ', 0) == 3);
    assert(first_token(line) =~= name);
    assert(forall|j: int| 4 <= j < line.len() ==> #[trigger] line[j] != ' ');
    lemma_find_char(line, ' ', 4);
    assert(find_char(line, ' ', 4) == line.len());
    assert(line.subrange(4, line.len() as int) =~= ds);
    assert(second_token(line) == Some(ds));
    assert(parse_u16_spec(ds) == Some(v));
    let m = InstrModel { name, code, operand: Some(v) };
    assert(decode_line(line) == LineStep::Emit(m));

    // One emitted record, nothing after it.
    let lines = seq![line];
    assert(decode_from(lines, 1) == Ok::<Seq<InstrModel>, ErrModel>(Seq::empty()));
    assert(seq![m] + Seq::<InstrModel>::empty() =~= seq![m]);
    assert(decode_from(lines, 0) == Ok::<Seq<InstrModel>, ErrModel>(seq![m]));
}

/// A non-comment line whose first token is non-empty and outside the table
/// decodes to an unknown-mnemonic failure carrying that token.
pub proof fn lemma_unknown_mnemonic_fails(line: Seq<char>)
    requires
        !is_comment(line),
        code_of(first_token(line)) is None,
        first_token(line).len() > 0,
    ensures
        decode_line(line) == LineStep::Fail(ErrModel::UnknownMnemonic(first_token(line))),
{
}

/// A non-comment line with a table mnemonic and a second token that does not
/// parse as a 16-bit value decodes to an invalid-operand failure carrying
/// that token.
pub proof fn lemma_invalid_operand_fails(line: Seq<char>, tok: Seq<char>)
    requires
        !is_comment(line),
        code_of(first_token(line)) is Some,
        second_token(line) == Some(tok),
        parse_u16_spec(tok) is None,
    ensures
        decode_line(line) == LineStep::Fail(ErrModel::InvalidOperand(tok)),
{
}

proof fn lemma_decode_from_wf(lines: Seq<Seq<char>>, i: int, ms: Seq<InstrModel>)
    requires
        decode_from(lines, i) == Ok::<Seq<InstrModel>, ErrModel>(ms),
    ensures
        forall|k: int| 0 <= k < ms.len() ==> instr_wf(#[trigger] ms[k]),
    decreases lines.len() - i,
{
    if 0 <= i < lines.len() {
        match decode_line(lines[i]) {
            LineStep::Skip => {
                lemma_decode_from_wf(lines, i + 1, ms);
            },
            LineStep::Fail(_) => {
                assert(false);
            },
            LineStep::Emit(m) => {
                match decode_from(lines, i + 1) {
                    Ok(rest) => {
                        lemma_decode_from_wf(lines, i + 1, rest);
                        assert(ms == seq![m] + rest);
                        assert(instr_wf(m));
                        assert(forall|k: int|
                            0 <= k < ms.len() ==> #[trigger] ms[k] == if k == 0 {
                                m
                            } else {
                                rest[k - 1]
                            });
                    },
                    Err(_) => {
                        assert(false);
                    },
                }
            },
        }
    }
}

/// Every record that a successful decode yields carries a code drawn from
/// the fixed table: the table's code for its own mnemonic. No other code is
/// ever emitted.
pub proof fn lemma_decode_codes_from_table(s: Seq<char>, ms: Seq<InstrModel>)
    requires
        decode_spec(s) == Ok::<Seq<InstrModel>, ErrModel>(ms),
    ensures
        forall|k: int| 0 <= k < ms.len() ==> instr_wf(#[trigger] ms[k]),
{
    lemma_decode_from_wf(split_and_trim_spec(s), 0, ms);
}

/// Decoding is a pure function of the source text alone: any two results of
/// decoding the same text are equal.
pub proof fn lemma_decode_repeatable(
    s: Seq<char>,
    r1: Result<Seq<InstrModel>, ErrModel>,
    r2: Result<Seq<InstrModel>, ErrModel>,
)
    requires
        r1 == decode_spec(s),
        r2 == decode_spec(s),
    ensures
        r1 == r2,
{
}

} // verus!
