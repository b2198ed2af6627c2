//! Laws that relate several operations of the library: a stored value is
//! what `PRINT` emits, and every stored line appears in the `LIST` text.

use vstd::prelude::*;
use crate::char_stream::{kw_bytes, Keyword};
use crate::error::ErrorKind;
use crate::program_storage::ProgramStorage;
use crate::repl::{line_text, listing_of};
use crate::semantics::{
    env_value, eval_fuel, execute_spec, ExecOutcome, InterpState,
};
use crate::text::{
    after_ws, dec_rep, is_alpha_byte, is_var_body_byte, lemma_scan_end, lemma_scan_end_exact,
    scan_end, CharClass,
};
use crate::types::{LineIndex, Number};

verus! {

/// After any successful `LET X = v` — which leaves the environment binding
/// `X` to `v` — a subsequent `PRINT X` emits `v`, followed by a space and a
/// newline, and changes nothing else.
/// The text of a `PRINT` of one variable evaluates to the variable's value.
proof fn lemma_print_var_body(st: InterpState, name: Seq<u8>, v: Number)
    requires
        1 <= name.len(),
        is_alpha_byte(name[0]),
        forall|i: int| 0 <= i < name.len() ==> is_var_body_byte(#[trigger] name[i]),
        env_value(st.env, name) == v,
    ensures
        ({
            let s = kw_bytes(Keyword::Print) + seq![32u8] + name;
            crate::semantics::print_stmt_spec(s, 6, st.env, eval_fuel(s, 0)) == Ok::<
                (Seq<u8>, int),
                ErrorKind,
            >((dec_rep(v as int) + seq![32u8] + Seq::<u8>::empty() + seq![10u8], s.len() as int))
        }),
{
    reveal(crate::char_stream::kw_bytes);
    let s = kw_bytes(Keyword::Print) + seq![32u8] + name;
    let fuel = eval_fuel(s, 0);
    assert(s.len() == 6 + name.len());
    assert(s[5] == 32);
    assert(is_alpha_byte(s[6]));
    assert forall|j: int| 6 <= j < s.len() implies s[j] == name[j - 6] by {}
    lemma_scan_end(s, 6, CharClass::Alpha);
    let e1 = scan_end(s, 6, CharClass::Alpha);
    assert(scan_end(s, 6, CharClass::Alpha) == scan_end(s, 7, CharClass::Alpha));
    assert(e1 >= 7);
    lemma_scan_end_exact(s, e1, s.len() as int, CharClass::VarBody);
    let e2 = scan_end(s, e1, CharClass::VarBody);
    assert(e2 == s.len());
    assert(s.subrange(6, e2) =~= name);
    lemma_scan_end_exact(s, 6, 6, CharClass::Whitespace);
    lemma_scan_end_exact(s, s.len() as int, s.len() as int, CharClass::Whitespace);
    crate::types::lemma_wrap_mul_one(v);
    assert(scan_end(s, 6, CharClass::Digit) == 6);
    assert(crate::semantics::eval_factor(s, 6, st.env, fuel) == Ok::<(Number, int), ErrorKind>(
        (v, s.len() as int),
    ));
    assert(crate::semantics::eval_term(s, 6, st.env, fuel) == Ok::<(Number, int), ErrorKind>(
        (v, s.len() as int),
    ));
    assert(crate::semantics::eval_expr(s, 6, st.env, fuel) == Ok::<(Number, int), ErrorKind>(
        (v, s.len() as int),
    ));
    assert(crate::semantics::print_item(s, 6, st.env, fuel) == Ok::<(Seq<u8>, int), ErrorKind>(
        (dec_rep(v as int) + seq![32u8], s.len() as int),
    ));
}

/// After any successful `LET X = v` — which leaves the environment binding
/// `X` to `v` — a subsequent `PRINT X` emits `v`, followed by a space and a
/// newline, and changes nothing else.
pub proof fn lemma_let_then_print(st: InterpState, name: Seq<u8>, v: Number)
    requires
        1 <= name.len(),
        is_alpha_byte(name[0]),
        forall|i: int| 0 <= i < name.len() ==> is_var_body_byte(#[trigger] name[i]),
        env_value(st.env, name) == v,
    ensures
        ({
            let s = kw_bytes(Keyword::Print) + seq![32u8] + name;
            execute_spec(s, 0, st, eval_fuel(s, 0)) == Ok::<(InterpState, ExecOutcome), ErrorKind>(
                (
                    InterpState { out: st.out + dec_rep(v as int) + seq![32u8, 10u8], ..st },
                    ExecOutcome::Done,
                ),
            )
        }),
{
    lemma_print_var_body(st, name, v);
    let s = kw_bytes(Keyword::Print) + seq![32u8] + name;
    let fuel = eval_fuel(s, 0);
    let t = dec_rep(v as int) + seq![32u8] + Seq::<u8>::empty() + seq![10u8];
    lemma_print_header(name);
    lemma_print_dispatch(s, st, fuel, t);
    assert(st.out + t =~= st.out + dec_rep(v as int) + seq![32u8, 10u8]);
    assert(InterpState { out: st.out + t, ..st } == InterpState {
        out: st.out + dec_rep(v as int) + seq![32u8, 10u8],
        ..st
    });
}

/// The text `PRINT <name>` starts with the keyword `PRINT` and a space.
proof fn lemma_print_header(name: Seq<u8>)
    requires
        1 <= name.len(),
        is_alpha_byte(name[0]),
    ensures
        ({
            let s = kw_bytes(Keyword::Print) + seq![32u8] + name;
            &&& s.len() == 6 + name.len()
            &&& scan_end(s, 0, CharClass::Alpha) == 5
            &&& after_ws(s, 5) == 6
            &&& crate::char_stream::keyword_of(s.subrange(0, 5)) == Some(Keyword::Print)
        }),
{
    reveal(crate::char_stream::kw_bytes);
    let s = kw_bytes(Keyword::Print) + seq![32u8] + name;
    assert(s[0] == 80 && s[1] == 82 && s[2] == 73 && s[3] == 78 && s[4] == 84);
    assert(s[5] == 32);
    lemma_scan_end_exact(s, 0, 5, CharClass::Alpha);
    assert(s.subrange(0, 5) =~= kw_bytes(Keyword::Print));
    assert(is_alpha_byte(s[6]) && !crate::text::is_whitespace_byte(s[6]));
    lemma_scan_end_exact(s, 5, 6, CharClass::Whitespace);
}

/// A statement whose leading keyword reads `PRINT` executes as its `PRINT`
/// body says.
proof fn lemma_print_dispatch(s: Seq<u8>, st: InterpState, fuel: nat, t: Seq<u8>)
    requires
        scan_end(s, 0, CharClass::Alpha) == 5,
        after_ws(s, 5) == 6,
        s.len() >= 6,
        crate::char_stream::keyword_of(s.subrange(0, 5)) == Some(Keyword::Print),
        crate::semantics::print_stmt_spec(s, 6, st.env, fuel) == Ok::<(Seq<u8>, int), ErrorKind>(
            (t, s.len() as int),
        ),
    ensures
        execute_spec(s, 0, st, fuel) == Ok::<(InterpState, ExecOutcome), ErrorKind>(
            (InterpState { out: st.out + t, ..st }, ExecOutcome::Done),
        ),
{
    reveal(crate::semantics::exec_stmt);
}

/// Every line segment of the listing of a storage stands somewhere in the
/// listing text, in full.
proof fn lemma_listing_at(entries: Seq<(LineIndex, Vec<u8>)>, i: int)
    requires
        0 <= i < entries.len(),
    ensures
        ({
            let line = line_text(entries[i].0.spec_value(), entries[i].1@);
            let whole = listing_of(entries);
            exists|off: int|
                0 <= off && off + line.len() <= whole.len() && #[trigger] whole.subrange(
                    off,
                    off + line.len(),
                ) == line
        }),
    decreases entries.len(),
{
    let line = line_text(entries[i].0.spec_value(), entries[i].1@);
    let whole = listing_of(entries);
    let head = line_text(entries[0].0.spec_value(), entries[0].1@);
    assert(whole == head + listing_of(entries.drop_first()));
    if i == 0 {
        let off: int = 0;
        assert(whole.subrange(off, off + line.len()) =~= line);
    } else {
        lemma_listing_at(entries.drop_first(), i - 1);
        let rest = listing_of(entries.drop_first());
        assert(entries.drop_first()[i - 1] == entries[i]);
        let off0 = choose|off: int|
            0 <= off && off + line.len() <= rest.len() && #[trigger] rest.subrange(
                off,
                off + line.len(),
            ) == line;
        let off = off0 + head.len();
        assert(whole.len() == head.len() + rest.len());
        assert(whole.subrange(off, off + line.len()) =~= rest.subrange(
            off0,
            off0 + line.len(),
        ));
        assert(whole.subrange(off, off + line.len()) == line);
    }
}

/// After entering a numbered line, the `LIST` text holds a line whose suffix
/// after the index and one space is exactly the stored text: what was typed
/// comes back.
pub proof fn lemma_list_round_trip(storage: ProgramStorage, ix: LineIndex, text: Seq<u8>)
    requires
        storage.wf(),
        storage.spec_get(ix.spec_value()) == Some(text),
    ensures
        ({
            let line = line_text(ix.spec_value(), text);
            let whole = listing_of(storage.entries@);
            exists|off: int|
                0 <= off && off + line.len() <= whole.len() && #[trigger] whole.subrange(
                    off,
                    off + line.len(),
                ) == line
        }),
{
    let k = ix.spec_value();
    let i = storage.index_of(k);
    assert(storage.has_key(k));
    assert(0 <= i < storage.spec_len() && storage.key_at(i) == k);
    lemma_listing_at(storage.entries@, i);
    assert(line_text(storage.entries@[i].0.spec_value(), storage.entries@[i].1@) == line_text(
        k,
        text,
    ));
}

} // verus!
