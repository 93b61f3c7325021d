//! The two-pass driver: pass one resolves every label and literal to an
//! absolute address; pass two emits one object-code record per line.

use vstd::prelude::*;

use crate::error::{AsmError, AsmErrorV};
use crate::global_map::{
    constant_wf, find_label, find_literal, global_map_wf, lemma_find_label_none,
    lemma_find_literal_extend, pool_wf, spec_const_len, ConstantV, GlobalMap, GlobalMapV,
};
use crate::parse_utils::{
    address_spec_wf, spec_loc_inc, spec_parse_address, spec_parse_opcode, AddressSpec,
    AddressSpecV, AddressingModes, ASMLine, ASMLineV, Directive, OpcodeSpec, OpcodeSpecV,
};
use crate::utils::{spec_split, split_string};

verus! {

/// The label, mnemonic and operand fields of a line: three tokens are taken
/// as they stand; with two, the first is a label unless it is a known
/// mnemonic; a single token is a bare mnemonic.
pub open spec fn spec_line_fields(s: Seq<char>) -> (Seq<char>, Seq<char>, Seq<char>) {
    let parts = spec_split(s, ' ');
    if parts.len() >= 3 {
        (parts[0], parts[1], parts[2])
    } else if parts.len() == 2 {
        if spec_parse_opcode(parts[0]) is Ok {
            (Seq::empty(), parts[0], parts[1])
        } else {
            (parts[0], parts[1], Seq::empty())
        }
    } else {
        (Seq::empty(), parts[0], Seq::empty())
    }
}

/// Classification of one source line into its label and the structured
/// mnemonic and operand. A missing operand reads as address zero; the
/// operand is classified before the mnemonic, as the errors' order shows.
pub open spec fn spec_parse_line(s: Seq<char>) -> Result<
    (Seq<char>, OpcodeSpecV, AddressSpecV),
    AsmErrorV,
> {
    let fields = spec_line_fields(s);
    if fields.1.len() == 0 {
        Err(AsmErrorV::MissingOpcode)
    } else {
        let adr = if fields.2.len() > 0 {
            spec_parse_address(fields.2)
        } else {
            Ok(AddressSpecV::Address(0, AddressingModes::Absent))
        };
        match adr {
            Err(e) => Err(e),
            Ok(ad) => {
                match spec_parse_opcode(fields.1) {
                    Err(e) => Err(e),
                    Ok(op) => Ok((fields.0, op, ad)),
                }
            },
        }
    }
}

/// Splits one source line into label, mnemonic and operand and classifies
/// the latter two.
pub fn parse_line(global_map: &GlobalMap, line: &str) -> (r: Result<
    (String, OpcodeSpec, AddressSpec),
    AsmError,
>)
    ensures
        match spec_parse_line(line@) {
            Ok(t) => r matches Ok(x) && x.0@ == t.0 && x.1@ == t.1 && x.2@ == t.2,
            Err(e) => r matches Err(x) && x@ == e,
        },
{
    let mut parts = split_string(line, ' ');
    let ghost sparts = spec_split(line@, ' ');
    proof {
        assert(parts@.map_values(|t: String| t@).len() == parts@.len());
        assert(forall|k: int|
            0 <= k < parts@.len() ==> (#[trigger] parts@[k])@ == sparts[k]);
    }
    let label: String;
    let opcode: String;
    let operand: String;
    if parts.len() >= 3 {
        let mut it = parts;
        operand = it.remove(2);
        opcode = it.remove(1);
        label = it.remove(0);
    } else if parts.len() == 2 {
        let known = crate::parse_utils::parse_opcode(global_map, parts[0].as_str()).is_ok();
        let mut it = parts;
        if known {
            operand = it.remove(1);
            opcode = it.remove(0);
            label = String::new();
        } else {
            opcode = it.remove(1);
            label = it.remove(0);
            operand = String::new();
        }
    } else {
        let mut it = parts;
        opcode = it.remove(0);
        label = String::new();
        operand = String::new();
    }
    let ghost fields = spec_line_fields(line@);
    proof {
        assert(label@ == fields.0 && opcode@ == fields.1 && operand@ == fields.2);
    }
    if opcode.as_str().unicode_len() == 0 {
        return Err(AsmError::MissingOpcode);
    }
    let address_spec = if operand.as_str().unicode_len() > 0 {
        match crate::parse_utils::parse_address(global_map, operand.as_str()) {
            Ok(ad) => ad,
            Err(e) => {
                return Err(e);
            },
        }
    } else {
        AddressSpec::Address(0, AddressingModes::Absent)
    };
    let opcode_spec = match crate::parse_utils::parse_opcode(global_map, opcode.as_str()) {
        Ok(op) => op,
        Err(e) => {
            return Err(e);
        },
    };
    Ok((label, opcode_spec, address_spec))
}

/// Places every pooled literal that has no address yet at the running
/// location, advances the location by each placed literal's size, and
/// empties the pool.
fn flush_literals(ctx: &mut GlobalMap, loc: usize) -> (r: Result<usize, AsmError>)
    requires
        loc <= 0xFFFFF,
        global_map_wf(old(ctx)@),
        pool_wf(old(ctx)@),
    ensures
        match r {
            Ok(loc2) => {
                &&& spec_flush_pool(old(ctx)@.literal_pool, old(ctx)@.literal_map, loc as int)
                    == Ok::<(Seq<(ConstantV, int)>, int), AsmErrorV>(
                    (final(ctx)@.literal_map, loc2 as int),
                )
                &&& loc <= loc2 <= 0xFFFFF
                &&& final(ctx)@.literal_pool.len() == 0
                &&& global_map_wf(final(ctx)@)
                &&& final(ctx)@.label_map == old(ctx)@.label_map
                &&& final(ctx)@.constant_map == old(ctx)@.constant_map
                &&& forall|c: ConstantV|
                    find_literal(old(ctx)@.literal_map, c) is Some ==> find_literal(
                        final(ctx)@.literal_map,
                        c,
                    ) == find_literal(old(ctx)@.literal_map, c)
                &&& forall|c: ConstantV| #[trigger]
                    old(ctx)@.literal_pool.contains(c) ==> find_literal(
                        final(ctx)@.literal_map,
                        c,
                    ) is Some
            },
            Err(e) => spec_flush_pool(old(ctx)@.literal_pool, old(ctx)@.literal_map, loc as int)
                matches Err(ev) && e@ == ev,
        },
{
    let ghost pool0 = ctx@.literal_pool;
    let ghost map0 = ctx@.literal_map;
    let ghost label0 = ctx@.label_map;
    let ghost const0 = ctx@.constant_map;
    let mut loc2: usize = loc;
    let mut i: usize = 0;
    let n = ctx.literal_pool.len();
    proof {
        assert(pool0.skip(0) =~= pool0);
    }
    while i < n
        invariant
            i <= n,
            n == ctx.literal_pool@.len(),
            pool0 == old(ctx)@.literal_pool,
            map0 == old(ctx)@.literal_map,
            ctx@.literal_pool == pool0,
            ctx@.label_map == label0,
            ctx@.constant_map == const0,
            pool_wf(ctx@),
            global_map_wf(ctx@),
            loc <= loc2 <= 0xFFFFF,
            spec_flush_pool(pool0, map0, loc as int) == spec_flush_pool(
                pool0.skip(i as int),
                ctx@.literal_map,
                loc2 as int,
            ),
            forall|c: ConstantV|
                find_literal(map0, c) is Some ==> find_literal(ctx@.literal_map, c)
                    == find_literal(map0, c),
            forall|k: int|
                0 <= k < i ==> find_literal(ctx@.literal_map, #[trigger] pool0[k]) is Some,
        decreases n - i,
    {
        let c = ctx.literal_pool[i].duplicate();
        proof {
            assert(c@ == pool0[i as int]);
            assert(constant_wf(c@));
            assert(pool0.skip(i as int)[0] == pool0[i as int]);
            assert(pool0.skip(i as int).skip(1) =~= pool0.skip(i as int + 1));
        }
        if ctx.get_literal(&c).is_none() {
            let len = c.get_len();
            let ghost mapb = ctx@.literal_map;
            ctx.literal_map.push((c, loc2));
            proof {
                assert(ctx@.literal_map =~= mapb.push((pool0[i as int], loc2 as int)));
                assert forall|cc: ConstantV| find_literal(map0, cc) is Some implies find_literal(
                    ctx@.literal_map,
                    cc,
                ) == find_literal(map0, cc) by {
                    lemma_find_literal_extend(mapb, (pool0[i as int], loc2 as int), cc);
                }
                assert forall|k: int| 0 <= k < i + 1 implies find_literal(
                    ctx@.literal_map,
                    #[trigger] pool0[k],
                ) is Some by {
                    lemma_find_literal_extend(mapb, (pool0[i as int], loc2 as int), pool0[k]);
                }
            }
            if len > 0xFFFFF || loc2 > 0xFFFFF - len {
                proof {
                    assert(spec_flush_pool(pool0.skip(i as int), mapb, loc2 as int)
                        == Err::<(Seq<(ConstantV, int)>, int), AsmErrorV>(
                        AsmErrorV::ProgramTooLarge,
                    ));
                }
                return Err(AsmError::ProgramTooLarge);
            }
            loc2 = loc2 + len;
        }
        i = i + 1;
    }
    proof {
        assert(pool0.skip(n as int) =~= Seq::<ConstantV>::empty());
        assert(spec_flush_pool(pool0.skip(n as int), ctx@.literal_map, loc2 as int)
            == Ok::<(Seq<(ConstantV, int)>, int), AsmErrorV>((ctx@.literal_map, loc2 as int)));
    }
    ctx.literal_pool = Vec::new();
    proof {
        assert(ctx@.literal_pool =~= Seq::<ConstantV>::empty());
        assert forall|c: ConstantV| #[trigger] pool0.contains(c) implies find_literal(
            ctx@.literal_map,
            c,
        ) is Some by {
            let k = choose|k: int| 0 <= k < pool0.len() && pool0[k] == c;
        }
    }
    Ok(loc2)
}

/// What pass one hands to pass two: the filled symbol tables, the parsed
/// lines, each line's resolved address, and the program's start address.
pub struct PassOneOutput {
    pub ctx: GlobalMap,
    pub lines: Vec<ASMLine>,
    pub locs: Vec<usize>,
    pub start: usize,
    /// For each label-table entry, the index of the line that defined it.
    pub label_lines: Ghost<Seq<int>>,
}

/// The parsed shape of a line whose parse succeeds.
pub open spec fn line_of(s: Seq<char>) -> ASMLineV {
    ASMLineV {
        opcode_spec: spec_parse_line(s)->Ok_0.1,
        address_spec: spec_parse_line(s)->Ok_0.2,
    }
}

/// The running state of pass one: the location counter, the tables built
/// so far, and the address of each line processed so far.
#[verifier::ext_equal]
pub struct PassOneState {
    pub loc: int,
    pub labels: Seq<(Seq<char>, int)>,
    pub constants: Seq<(Seq<char>, ConstantV)>,
    pub pool: Seq<ConstantV>,
    pub lit_map: Seq<(ConstantV, int)>,
    pub locs: Seq<int>,
}

/// Placement of the pooled literals at `loc`: each pooled literal without
/// an address yet is placed at the running location, which advances by
/// the literal's size; a location leaving the 20-bit address space is
/// fatal.
pub open spec fn spec_flush_pool(
    pool: Seq<ConstantV>,
    lit_map: Seq<(ConstantV, int)>,
    loc: int,
) -> Result<(Seq<(ConstantV, int)>, int), AsmErrorV>
    decreases pool.len(),
{
    if pool.len() == 0 {
        Ok((lit_map, loc))
    } else {
        match find_literal(lit_map, pool[0]) {
            Some(_) => spec_flush_pool(pool.skip(1), lit_map, loc),
            None => {
                let n = spec_const_len(pool[0]);
                if n > 0xFFFFF || loc + n > 0xFFFFF {
                    Err(AsmErrorV::ProgramTooLarge)
                } else {
                    spec_flush_pool(pool.skip(1), lit_map.push((pool[0], loc)), loc + n)
                }
            },
        }
    }
}

/// One line of pass one over the running state: parse; flush the pool at
/// `LTORG`; enroll a not-yet-enrolled literal operand; record a label at
/// the current location, refusing a re-definition; advance the location
/// by the line's size, staying inside the 20-bit address space.
#[verifier::opaque]
pub open spec fn spec_pass_one_step(st: PassOneState, s: Seq<char>) -> Result<
    PassOneState,
    AsmErrorV,
> {
    match spec_parse_line(s) {
        Err(e) => Err(e),
        Ok(t) => {
            let flushed = if t.1 == OpcodeSpecV::Directive(Directive::Ltorg) {
                match spec_flush_pool(st.pool, st.lit_map, st.loc) {
                    Err(e) => Err(e),
                    Ok(fl) => Ok((Seq::<ConstantV>::empty(), fl.0, fl.1)),
                }
            } else {
                Ok((st.pool, st.lit_map, st.loc))
            };
            match flushed {
                Err(e) => Err(e),
                Ok(f) => {
                    let pool2 = match t.2 {
                        AddressSpecV::Literal(c) => {
                            if !f.0.contains(c) && find_literal(f.1, c) is None {
                                f.0.push(c)
                            } else {
                                f.0
                            }
                        },
                        _ => f.0,
                    };
                    if t.0.len() > 0 && find_label(st.labels, t.0) is Some {
                        Err(AsmErrorV::DuplicateLabel(t.0))
                    } else {
                        let constants2 = match t.2 {
                            AddressSpecV::Constant(c) => {
                                if t.0.len() > 0 {
                                    st.constants.push((t.0, c))
                                } else {
                                    st.constants
                                }
                            },
                            _ => st.constants,
                        };
                        let labels2 = if t.0.len() > 0 {
                            st.labels.push((t.0, f.2))
                        } else {
                            st.labels
                        };
                        match spec_loc_inc(t.1, t.2) {
                            Err(e) => Err(e),
                            Ok(sz) => {
                                if f.2 + sz > 0xFFFFF {
                                    Err(AsmErrorV::ProgramTooLarge)
                                } else {
                                    Ok(
                                        PassOneState {
                                            loc: f.2 + sz,
                                            labels: labels2,
                                            constants: constants2,
                                            pool: pool2,
                                            lit_map: f.1,
                                            locs: st.locs.push(f.2),
                                        },
                                    )
                                }
                            },
                        }
                    }
                },
            }
        },
    }
}

/// Pass one folded over the lines from index `i` on.
pub open spec fn spec_pass_one_lines(lines: Seq<String>, st: PassOneState, i: int) -> Result<
    PassOneState,
    AsmErrorV,
>
    decreases lines.len() - i,
{
    if i >= lines.len() {
        Ok(st)
    } else {
        match spec_pass_one_step(st, lines[i]@) {
            Err(e) => Err(e),
            Ok(st2) => spec_pass_one_lines(lines, st2, i + 1),
        }
    }
}

/// Pass one from state `st` at line `i` to the end: the remaining lines,
/// then the end-of-program flush of the literal pool.
pub open spec fn spec_pass_one_from(lines: Seq<String>, st: PassOneState, i: int) -> Result<
    PassOneState,
    AsmErrorV,
> {
    match spec_pass_one_lines(lines, st, i) {
        Err(e) => Err(e),
        Ok(st2) => {
            match spec_flush_pool(st2.pool, st2.lit_map, st2.loc) {
                Err(e) => Err(e),
                Ok(fl) => Ok(
                    PassOneState {
                        loc: fl.1,
                        pool: Seq::empty(),
                        lit_map: fl.0,
                        ..st2
                    },
                ),
            }
        },
    }
}

/// Pass one as a whole: the program must open with a `START` directive
/// carrying an integer address inside the 20-bit space; then the per-line
/// fold runs, and the pool is flushed at the end of the program.
pub open spec fn spec_pass_one(lines: Seq<String>) -> Result<PassOneState, AsmErrorV> {
    if lines.len() == 0 {
        Err(AsmErrorV::MissingStart)
    } else {
        match spec_parse_line(lines[0]@) {
            Err(e) => Err(e),
            Ok(t) => {
                if t.1 != OpcodeSpecV::Directive(Directive::Start) {
                    Err(AsmErrorV::MissingStart)
                } else {
                    match t.2 {
                        AddressSpecV::Address(v, _) => {
                            if v > 0xFFFFF {
                                Err(AsmErrorV::ProgramTooLarge)
                            } else {
                                let st0 = PassOneState {
                                    loc: v,
                                    labels: if t.0.len() > 0 {
                                        seq![(t.0, v)]
                                    } else {
                                        Seq::empty()
                                    },
                                    constants: Seq::empty(),
                                    pool: Seq::empty(),
                                    lit_map: Seq::empty(),
                                    locs: seq![v],
                                };
                                spec_pass_one_from(lines, st0, 1)
                            }
                        },
                        _ => Err(AsmErrorV::InvalidStartAddress),
                    }
                }
            },
        }
    }
}

/// The context a pass-one state denotes.
pub open spec fn gm_of_state(st: PassOneState) -> GlobalMapV {
    GlobalMapV {
        label_map: st.labels,
        constant_map: st.constants,
        literal_pool: st.pool,
        literal_map: st.lit_map,
    }
}

/// The parsed shape of every line of a program whose lines all parse.
pub open spec fn parsed_lines(lines: Seq<String>) -> Seq<ASMLineV> {
    Seq::new(lines.len(), |i: int| line_of(lines[i]@))
}

/// The label field of a line whose parse succeeds.
pub open spec fn line_label(s: Seq<char>) -> Seq<char> {
    spec_parse_line(s)->Ok_0.0
}

/// A failing parse fails the whole step.
proof fn lemma_step_err_parse(stin: PassOneState, s: Seq<char>, e: AsmErrorV)
    requires
        spec_parse_line(s) == Err::<(Seq<char>, OpcodeSpecV, AddressSpecV), AsmErrorV>(e),
    ensures
        spec_pass_one_step(stin, s) == Err::<PassOneState, AsmErrorV>(e),
{
    reveal(spec_pass_one_step);
}

/// A failing pool flush at `LTORG` fails the whole step.
proof fn lemma_step_err_flush(stin: PassOneState, s: Seq<char>, e: AsmErrorV)
    requires
        spec_parse_line(s) is Ok,
        line_of(s).opcode_spec == OpcodeSpecV::Directive(Directive::Ltorg),
        spec_flush_pool(stin.pool, stin.lit_map, stin.loc) matches Err(ev) && ev == e,
    ensures
        spec_pass_one_step(stin, s) == Err::<PassOneState, AsmErrorV>(e),
{
    reveal(spec_pass_one_step);
}

/// A label already in the table fails the step as a re-definition.
proof fn lemma_step_err_dup(stin: PassOneState, s: Seq<char>)
    requires
        spec_parse_line(s) is Ok,
        line_of(s).opcode_spec == OpcodeSpecV::Directive(Directive::Ltorg)
            ==> spec_flush_pool(stin.pool, stin.lit_map, stin.loc) is Ok,
        line_label(s).len() > 0,
        find_label(stin.labels, line_label(s)) is Some,
    ensures
        spec_pass_one_step(stin, s) == Err::<PassOneState, AsmErrorV>(
            AsmErrorV::DuplicateLabel(line_label(s)),
        ),
{
    reveal(spec_pass_one_step);
}

/// A line of invalid size fails the step.
proof fn lemma_step_err_inc(stin: PassOneState, s: Seq<char>, e: AsmErrorV)
    requires
        spec_parse_line(s) is Ok,
        line_of(s).opcode_spec == OpcodeSpecV::Directive(Directive::Ltorg)
            ==> spec_flush_pool(stin.pool, stin.lit_map, stin.loc) is Ok,
        line_label(s).len() > 0 ==> find_label(stin.labels, line_label(s)) is None,
        spec_loc_inc(line_of(s).opcode_spec, line_of(s).address_spec) matches Err(ev) && ev == e,
    ensures
        spec_pass_one_step(stin, s) == Err::<PassOneState, AsmErrorV>(e),
{
    reveal(spec_pass_one_step);
}

/// A line whose end leaves the 20-bit address space fails the step.
proof fn lemma_step_err_bound(stin: PassOneState, s: Seq<char>, loc1: int)
    requires
        spec_parse_line(s) is Ok,
        line_of(s).opcode_spec == OpcodeSpecV::Directive(Directive::Ltorg)
            ==> (spec_flush_pool(stin.pool, stin.lit_map, stin.loc) matches Ok(fl) && fl.1
            == loc1),
        line_of(s).opcode_spec != OpcodeSpecV::Directive(Directive::Ltorg) ==> loc1 == stin.loc,
        line_label(s).len() > 0 ==> find_label(stin.labels, line_label(s)) is None,
        spec_loc_inc(line_of(s).opcode_spec, line_of(s).address_spec) is Ok,
        loc1 + spec_loc_inc(line_of(s).opcode_spec, line_of(s).address_spec)->Ok_0 > 0xFFFFF,
    ensures
        spec_pass_one_step(stin, s) == Err::<PassOneState, AsmErrorV>(AsmErrorV::ProgramTooLarge),
{
    reveal(spec_pass_one_step);
}

/// The step from one state to the next, spelled out stage by stage.
#[verifier::rlimit(100)]
proof fn lemma_step_ok(
    stin: PassOneState,
    s: Seq<char>,
    pool1: Seq<ConstantV>,
    map1: Seq<(ConstantV, int)>,
    loc1: int,
    stnext: PassOneState,
)
    requires
        spec_parse_line(s) is Ok,
        line_of(s).opcode_spec == OpcodeSpecV::Directive(Directive::Ltorg)
            ==> (spec_flush_pool(stin.pool, stin.lit_map, stin.loc) == Ok::<
            (Seq<(ConstantV, int)>, int),
            AsmErrorV,
        >((map1, loc1)) && pool1 == Seq::<ConstantV>::empty()),
        line_of(s).opcode_spec != OpcodeSpecV::Directive(Directive::Ltorg) ==> (pool1 == stin.pool
            && map1 == stin.lit_map && loc1 == stin.loc),
        line_label(s).len() > 0 ==> find_label(stin.labels, line_label(s)) is None,
        stnext.pool == (match line_of(s).address_spec {
            AddressSpecV::Literal(c) => {
                if !pool1.contains(c) && find_literal(map1, c) is None {
                    pool1.push(c)
                } else {
                    pool1
                }
            },
            _ => pool1,
        }),
        stnext.constants == (match line_of(s).address_spec {
            AddressSpecV::Constant(c) => {
                if line_label(s).len() > 0 {
                    stin.constants.push((line_label(s), c))
                } else {
                    stin.constants
                }
            },
            _ => stin.constants,
        }),
        stnext.labels == (if line_label(s).len() > 0 {
            stin.labels.push((line_label(s), loc1))
        } else {
            stin.labels
        }),
        spec_loc_inc(line_of(s).opcode_spec, line_of(s).address_spec) is Ok,
        loc1 + spec_loc_inc(line_of(s).opcode_spec, line_of(s).address_spec)->Ok_0 <= 0xFFFFF,
        stnext.loc == loc1 + spec_loc_inc(line_of(s).opcode_spec, line_of(s).address_spec)->Ok_0,
        stnext.lit_map == map1,
        stnext.locs == stin.locs.push(loc1),
    ensures
        spec_pass_one_step(stin, s) == Ok::<PassOneState, AsmErrorV>(stnext),
{
    reveal(spec_pass_one_step);
    assert(spec_pass_one_step(stin, s) matches Ok(st2) && st2 =~= stnext);
}

/// One successful step advances the fold by one line.
proof fn lemma_fold_advance(lines: Seq<String>, stin: PassOneState, stnext: PassOneState, i: int)
    requires
        0 <= i < lines.len(),
        spec_pass_one_step(stin, lines[i]@) == Ok::<PassOneState, AsmErrorV>(stnext),
    ensures
        spec_pass_one_from(lines, stin, i) == spec_pass_one_from(lines, stnext, i + 1),
{
}

/// A failing step fails the fold with the same error.
proof fn lemma_fold_err(lines: Seq<String>, stin: PassOneState, i: int, e: AsmErrorV)
    requires
        0 <= i < lines.len(),
        spec_pass_one_step(stin, lines[i]@) == Err::<PassOneState, AsmErrorV>(e),
    ensures
        spec_pass_one_from(lines, stin, i) == Err::<PassOneState, AsmErrorV>(e),
{
}

/// Walks the source lines in order, resolving every label and literal to
/// an absolute address under the running location counter.
///
/// On success the output carries, per input line, its parsed form and its
/// address; the label table is injective (no two entries share a name) and
/// its addresses are non-decreasing in definition order; every literal
/// operand has a placed address; and every address lies inside the 20-bit
/// SIC/XE address space.
#[verifier::rlimit(100)]
pub fn pass_one(lines: &Vec<String>) -> (r: Result<PassOneOutput, AsmError>)
    ensures
        lines@.len() == 0 ==> (r matches Err(e) && e@ == AsmErrorV::MissingStart),
        r matches Err(e) ==> (spec_pass_one(lines@) matches Err(ev) && e@ == ev),
        r matches Ok(out) ==> {
            &&& (spec_pass_one(lines@) matches Ok(st) && st.labels == out.ctx@.label_map
                && st.constants == out.ctx@.constant_map && st.lit_map == out.ctx@.literal_map
                && st.pool == out.ctx@.literal_pool && st.locs == locs_view(out.locs@))
            &&& lines@.len() > 0
            &&& out.lines@.len() == lines@.len()
            &&& out.locs@.len() == lines@.len()
            &&& forall|i: int|
                0 <= i < lines@.len() ==> spec_parse_line((#[trigger] lines@[i])@) is Ok
            &&& forall|i: int|
                0 <= i < lines@.len() ==> (#[trigger] out.lines@[i])@ == line_of(lines@[i]@)
            &&& forall|i: int|
                0 <= i < lines@.len() ==> address_spec_wf((#[trigger] out.lines@[i])@.address_spec)
            &&& global_map_wf(out.ctx@)
            &&& forall|i: int| 0 <= i < lines@.len() ==> #[trigger] out.locs@[i] <= 0xFFFFF
            &&& forall|i: int|
                0 <= i < lines@.len() ==> spec_loc_inc(
                    (#[trigger] out.lines@[i])@.opcode_spec,
                    out.lines@[i]@.address_spec,
                ) is Ok
            &&& forall|i: int|
                0 <= i < lines@.len() ==> #[trigger] out.locs@[i] + spec_loc_inc(
                    out.lines@[i]@.opcode_spec,
                    out.lines@[i]@.address_spec,
                )->Ok_0 <= 0xFFFFF
            &&& forall|i: int, j: int|
                0 <= i <= j < lines@.len() ==> #[trigger] out.locs@[i] <= #[trigger] out.locs@[j]
            &&& out.start == out.locs@[0]
            &&& out.lines@[0]@.opcode_spec == OpcodeSpecV::Directive(Directive::Start)
            &&& forall|k1: int, k2: int|
                0 <= k1 < k2 < out.ctx@.label_map.len() ==> (#[trigger] out.ctx@.label_map[k1]).0
                    != (#[trigger] out.ctx@.label_map[k2]).0
            &&& forall|k1: int, k2: int|
                0 <= k1 <= k2 < out.ctx@.label_map.len() ==> (#[trigger] out.ctx@.label_map[k1]).1
                    <= (#[trigger] out.ctx@.label_map[k2]).1
            &&& forall|i: int|
                0 <= i < lines@.len() ==> match (#[trigger] out.lines@[i])@.address_spec {
                    AddressSpecV::Literal(c) => find_literal(out.ctx@.literal_map, c) is Some,
                    _ => true,
                }
            &&& out.ctx@.literal_pool.len() == 0
            &&& forall|i: int|
                0 <= i < lines@.len() - 1 ==> #[trigger] out.locs@[i] + spec_loc_inc(
                    out.lines@[i]@.opcode_spec,
                    out.lines@[i]@.address_spec,
                )->Ok_0 <= out.locs@[i + 1]
            &&& out.label_lines@.len() == out.ctx@.label_map.len()
            &&& forall|k: int|
                0 <= k < out.label_lines@.len() ==> 0 <= #[trigger] out.label_lines@[k]
                    < lines@.len()
            &&& forall|k: int|
                0 <= k < out.label_lines@.len() ==> (#[trigger] out.ctx@.label_map[k]).1
                    == out.locs@[out.label_lines@[k]]
            &&& forall|k: int|
                0 <= k < out.label_lines@.len() ==> (#[trigger] out.ctx@.label_map[k]).0
                    == spec_parse_line(lines@[out.label_lines@[k]]@)->Ok_0.0
            &&& forall|k1: int, k2: int|
                0 <= k1 < k2 < out.label_lines@.len() ==> #[trigger] out.label_lines@[k1]
                    < #[trigger] out.label_lines@[k2]
            &&& forall|k: int|
                0 <= k < out.ctx@.label_map.len() ==> (#[trigger] out.ctx@.label_map[k]).0.len()
                    > 0
        },
{
    if lines.len() == 0 {
        return Err(AsmError::MissingStart);
    }
    let mut ctx = GlobalMap::init();
    let (label0, op0, ad0) = match parse_line(&ctx, lines[0].as_str()) {
        Ok(t) => t,
        Err(e) => {
            proof {
                assert(spec_pass_one(lines@) == Err::<PassOneState, AsmErrorV>(e@));
            }
            return Err(e);
        },
    };
    let ghost pt0 = spec_parse_line(lines@[0]@)->Ok_0;
    proof {
        assert(pt0.0 == label0@ && pt0.1 == op0@ && pt0.2 == ad0@);
    }
    match &op0 {
        OpcodeSpec::Directive(Directive::Start) => {},
        _ => {
            proof {
                assert(pt0.1 != OpcodeSpecV::Directive(Directive::Start));
                assert(spec_pass_one(lines@) == Err::<PassOneState, AsmErrorV>(
                    AsmErrorV::MissingStart,
                ));
            }
            return Err(AsmError::MissingStart);
        },
    }
    let start: usize = match &ad0 {
        AddressSpec::Address(v, _) => *v,
        _ => {
            proof {
                assert(spec_pass_one(lines@) == Err::<PassOneState, AsmErrorV>(
                    AsmErrorV::InvalidStartAddress,
                ));
            }
            return Err(AsmError::InvalidStartAddress);
        },
    };
    if start > 0xFFFFF {
        proof {
            assert(spec_pass_one(lines@) == Err::<PassOneState, AsmErrorV>(
                AsmErrorV::ProgramTooLarge,
            ));
        }
        return Err(AsmError::ProgramTooLarge);
    }
    let mut loc: usize = start;
    let mut out_lines: Vec<ASMLine> = Vec::new();
    let mut locs: Vec<usize> = Vec::new();
    let ghost mut lab_lines: Seq<int> = Seq::empty();
    if label0.as_str().unicode_len() > 0 {
        ctx.label_map.push((label0, start));
        proof {
            lab_lines = seq![0int];
        }
    }
    out_lines.push(ASMLine { opcode_spec: op0, address_spec: ad0 });
    locs.push(start);
    proof {
        assert(ctx.label_map@.len() <= 1);
        assert(ctx@.label_map.len() == ctx.label_map@.len());
        let st0 = PassOneState {
            loc: start as int,
            labels: ctx@.label_map,
            constants: ctx@.constant_map,
            pool: ctx@.literal_pool,
            lit_map: ctx@.literal_map,
            locs: locs_view(locs@),
        };
        if pt0.0.len() > 0 {
            assert(st0.labels =~= seq![(pt0.0, start as int)]);
        } else {
            assert(st0.labels =~= Seq::<(Seq<char>, int)>::empty());
        }
        assert(st0.locs =~= seq![start as int]);
        assert(st0.constants =~= Seq::<(Seq<char>, ConstantV)>::empty());
        assert(st0.pool =~= Seq::<ConstantV>::empty());
        assert(st0.lit_map =~= Seq::<(ConstantV, int)>::empty());
        assert(spec_pass_one(lines@) == spec_pass_one_from(lines@, st0, 1));
    }
    let mut i: usize = 1;
    while i < lines.len()
        invariant
            1 <= i <= lines@.len(),
            out_lines@.len() == i,
            locs@.len() == i,
            forall|j: int| 0 <= j < i ==> spec_parse_line((#[trigger] lines@[j])@) is Ok,
            forall|j: int| 0 <= j < i ==> (#[trigger] out_lines@[j])@ == line_of(lines@[j]@),
            forall|j: int|
                0 <= j < i ==> address_spec_wf((#[trigger] out_lines@[j])@.address_spec),
            global_map_wf(ctx@),
            pool_wf(ctx@),
            forall|j: int| 0 <= j < i ==> #[trigger] locs@[j] <= 0xFFFFF,
            forall|j: int|
                0 <= j < i ==> spec_loc_inc(
                    (#[trigger] out_lines@[j])@.opcode_spec,
                    out_lines@[j]@.address_spec,
                ) is Ok,
            forall|j: int|
                0 <= j < i ==> #[trigger] locs@[j] + spec_loc_inc(
                    out_lines@[j]@.opcode_spec,
                    out_lines@[j]@.address_spec,
                )->Ok_0 <= 0xFFFFF,
            forall|j1: int, j2: int|
                0 <= j1 <= j2 < i ==> #[trigger] locs@[j1] <= #[trigger] locs@[j2],
            loc <= 0xFFFFF,
            loc == locs@[i - 1] + spec_loc_inc(
                out_lines@[i - 1]@.opcode_spec,
                out_lines@[i - 1]@.address_spec,
            )->Ok_0,
            forall|j: int|
                0 <= j < i - 1 ==> #[trigger] locs@[j] + spec_loc_inc(
                    out_lines@[j]@.opcode_spec,
                    out_lines@[j]@.address_spec,
                )->Ok_0 <= locs@[j + 1],
            lab_lines.len() == ctx@.label_map.len(),
            forall|k: int| 0 <= k < lab_lines.len() ==> 0 <= #[trigger] lab_lines[k] < i,
            forall|k: int|
                0 <= k < lab_lines.len() ==> (#[trigger] ctx@.label_map[k]).1
                    == locs@[lab_lines[k]],
            forall|k: int|
                0 <= k < lab_lines.len() ==> (#[trigger] ctx@.label_map[k]).0 == spec_parse_line(
                    lines@[lab_lines[k]]@,
                )->Ok_0.0,
            forall|k1: int, k2: int|
                0 <= k1 < k2 < lab_lines.len() ==> #[trigger] lab_lines[k1]
                    < #[trigger] lab_lines[k2],
            locs@[0] == start,
            out_lines@[0]@.opcode_spec == OpcodeSpecV::Directive(Directive::Start),
            forall|k: int| 0 <= k < ctx@.label_map.len() ==> (#[trigger] ctx@.label_map[k]).1 <= loc,
            forall|k1: int, k2: int|
                0 <= k1 < k2 < ctx@.label_map.len() ==> (#[trigger] ctx@.label_map[k1]).0
                    != (#[trigger] ctx@.label_map[k2]).0,
            forall|k1: int, k2: int|
                0 <= k1 <= k2 < ctx@.label_map.len() ==> (#[trigger] ctx@.label_map[k1]).1
                    <= (#[trigger] ctx@.label_map[k2]).1,
            forall|j: int|
                0 <= j < i ==> match (#[trigger] out_lines@[j])@.address_spec {
                    AddressSpecV::Literal(c) => ctx@.literal_pool.contains(c) || find_literal(
                        ctx@.literal_map,
                        c,
                    ) is Some,
                    _ => true,
                },
            forall|k: int|
                0 <= k < ctx@.label_map.len() ==> (#[trigger] ctx@.label_map[k]).0.len() > 0,
            spec_pass_one(lines@) == spec_pass_one_from(
                lines@,
                (PassOneState {
                    loc: loc as int,
                    labels: ctx@.label_map,
                    constants: ctx@.constant_map,
                    pool: ctx@.literal_pool,
                    lit_map: ctx@.literal_map,
                    locs: locs_view(locs@),
                }),
                i as int,
            ),
        decreases lines@.len() - i,
    {
        let ghost stin = (PassOneState {
            loc: loc as int,
            labels: ctx@.label_map,
            constants: ctx@.constant_map,
            pool: ctx@.literal_pool,
            lit_map: ctx@.literal_map,
            locs: locs_view(locs@),
        });
        proof {
            assert(spec_pass_one(lines@) == spec_pass_one_from(lines@, stin, i as int));
        }
        let ghost entry_lab = ctx@.label_map;
        let ghost entry_loc = loc as int;
        proof {
            assert(forall|k: int| 0 <= k < entry_lab.len() ==> (#[trigger] entry_lab[k]).1
                <= entry_loc);
            assert(forall|k: int| 0 <= k < entry_lab.len() ==> 0 <= (#[trigger] entry_lab[k]).1
                <= 0xFFFFF);
            assert(forall|k1: int, k2: int|
                0 <= k1 < k2 < entry_lab.len() ==> (#[trigger] entry_lab[k1]).0
                    != (#[trigger] entry_lab[k2]).0);
            assert(forall|k1: int, k2: int|
                0 <= k1 <= k2 < entry_lab.len() ==> (#[trigger] entry_lab[k1]).1
                    <= (#[trigger] entry_lab[k2]).1);
        }
        let (label, op, ad) = match parse_line(&ctx, lines[i].as_str()) {
            Ok(t) => t,
            Err(e) => {
                proof {
                    lemma_step_err_parse(stin, lines@[i as int]@, e@);
                    lemma_fold_err(lines@, stin, i as int, e@);
                }
                return Err(e);
            },
        };
        let ghost pt = spec_parse_line(lines@[i as int]@)->Ok_0;
        proof {
            assert(pt.0 == label@ && pt.1 == op@ && pt.2 == ad@);
            assert(line_of(lines@[i as int]@).opcode_spec == pt.1);
            assert(line_of(lines@[i as int]@).address_spec == pt.2);
            assert(line_label(lines@[i as int]@) == pt.0);
        }
        let ghost pool_start = ctx@.literal_pool;
        let ghost map_start = ctx@.literal_map;
        if matches!(&op, OpcodeSpec::Directive(Directive::Ltorg)) {
            proof {
                assert(pt.1 == OpcodeSpecV::Directive(Directive::Ltorg));
            }
            loc = match flush_literals(&mut ctx, loc) {
                Ok(l2) => l2,
                Err(e) => {
                    proof {
                        assert(spec_flush_pool(stin.pool, stin.lit_map, stin.loc) matches Err(ev)
                            && e@ == ev);
                        lemma_step_err_flush(stin, lines@[i as int]@, e@);
                        lemma_fold_err(lines@, stin, i as int, e@);
                    }
                    return Err(e);
                },
            };
            proof {
                assert(spec_flush_pool(stin.pool, stin.lit_map, stin.loc)
                    == Ok::<(Seq<(ConstantV, int)>, int), AsmErrorV>(
                    (ctx@.literal_map, loc as int),
                ));
                assert(ctx@.literal_pool =~= Seq::<ConstantV>::empty());
            }
        } else {
            proof {
                assert(pt.1 != OpcodeSpecV::Directive(Directive::Ltorg));
            }
        }
        let ghost pool1 = ctx@.literal_pool;
        let ghost map1 = ctx@.literal_map;
        let ghost loc1 = loc as int;
        proof {
            assert forall|c: ConstantV| #![trigger pool_start.contains(c)]
                pool_start.contains(c) || find_literal(map_start, c) is Some implies pool1.contains(
                c,
            ) || find_literal(map1, c) is Some by {}
        }
        if let AddressSpec::Literal(c) = &ad {
            let in_pool = ctx.pool_contains(c);
            let placed = ctx.get_literal(c).is_some();
            if !in_pool && !placed {
                let ghost poolb = ctx@.literal_pool;
                ctx.literal_pool.push(c.duplicate());
                proof {
                    assert(ctx@.literal_pool =~= poolb.push(c@));
                    assert(ctx@.literal_pool.last() == c@);
                    assert(ctx@.literal_pool.contains(c@));
                }
            }
        }
        let ghost pool_end = ctx@.literal_pool;
        proof {
            assert(map1 == ctx@.literal_map);
            assert forall|c: ConstantV| #![trigger pool1.contains(c)]
                pool1.contains(c) implies pool_end.contains(c) by {
                let k = choose|k: int| 0 <= k < pool1.len() && pool1[k] == c;
                assert(pool_end[k] == c);
            }
            assert(match ad@ {
                AddressSpecV::Literal(c) => pool_end.contains(c) || find_literal(map1, c) is Some,
                _ => true,
            });
            assert forall|j: int| 0 <= j < i implies match (#[trigger] out_lines@[j])@.address_spec {
                AddressSpecV::Literal(c) => pool_end.contains(c) || find_literal(
                    map1,
                    c,
                ) is Some,
                _ => true,
            } by {
                match out_lines@[j]@.address_spec {
                    AddressSpecV::Literal(c) => {
                        assert(pool_start.contains(c) || find_literal(map_start, c) is Some);
                        assert(pool1.contains(c) || find_literal(map1, c) is Some);
                    },
                    _ => {},
                }
            }
        }
        if label.as_str().unicode_len() > 0 {
            if ctx.get_label(label.as_str()).is_some() {
                proof {
                    assert(pt.0.len() > 0);
                    assert(find_label(stin.labels, pt.0) is Some);
                    lemma_step_err_dup(stin, lines@[i as int]@);
                    lemma_fold_err(lines@, stin, i as int, AsmErrorV::DuplicateLabel(pt.0));
                }
                return Err(AsmError::DuplicateLabel(label));
            }
            proof {
                lemma_find_label_none(ctx@.label_map, label@);
            }
            if let AddressSpec::Constant(c) = &ad {
                let ghost constb = ctx@.constant_map;
                ctx.constant_map.push((label.clone(), c.duplicate()));
                proof {
                    assert(ctx@.constant_map =~= constb.push((label@, c@)));
                    assert(constb == stin.constants);
                }
            }
            let ghost labb = ctx@.label_map;
            let ghost labname = label@;
            ctx.label_map.push((label, loc));
            proof {
                lab_lines = lab_lines.push(i as int);
                assert(ctx@.label_map =~= labb.push((labname, loc as int)));
                assert(labb == entry_lab);
                assert(entry_loc <= loc);
                assert(forall|k: int| 0 <= k < labb.len() ==> (#[trigger] labb[k]).1 <= loc);
                assert(forall|k: int| 0 <= k < labb.len() ==> 0 <= (#[trigger] labb[k]).1 <= 0xFFFFF);
                assert(forall|k: int| 0 <= k < labb.len() ==> (#[trigger] labb[k]).0 != labname);
                assert forall|k: int| 0 <= k < ctx@.label_map.len() implies ((
                #[trigger] ctx@.label_map[k]).1 <= loc && 0 <= ctx@.label_map[k].1
                    <= 0xFFFFF) by {
                    if k < labb.len() {
                        assert(ctx@.label_map[k] == labb[k]);
                    }
                }
                assert forall|k1: int, k2: int|
                    0 <= k1 < k2 < ctx@.label_map.len() implies (
                #[trigger] ctx@.label_map[k1]).0 != (#[trigger] ctx@.label_map[k2]).0 by {
                    if k2 < labb.len() {
                        assert(ctx@.label_map[k1] == labb[k1]);
                        assert(ctx@.label_map[k2] == labb[k2]);
                    } else {
                        assert(ctx@.label_map[k2].0 == labname);
                        assert(ctx@.label_map[k1] == labb[k1]);
                    }
                }
                assert forall|k1: int, k2: int|
                    0 <= k1 <= k2 < ctx@.label_map.len() implies (
                #[trigger] ctx@.label_map[k1]).1 <= (#[trigger] ctx@.label_map[k2]).1 by {
                    if k2 < labb.len() {
                        assert(ctx@.label_map[k1] == labb[k1]);
                        assert(ctx@.label_map[k2] == labb[k2]);
                    } else if k1 < labb.len() {
                        assert(ctx@.label_map[k1] == labb[k1]);
                        assert(ctx@.label_map[k2].1 == loc as int);
                    }
                }
            }
        }
        let inc = match crate::parse_utils::get_loc_inc(&op, &ad) {
            Ok(n) => n,
            Err(e) => {
                proof {
                    assert(spec_loc_inc(pt.1, pt.2) matches Err(ev) && e@ == ev);
                    lemma_step_err_inc(stin, lines@[i as int]@, e@);
                    lemma_fold_err(lines@, stin, i as int, e@);
                }
                return Err(e);
            },
        };
        proof {
            assert(inc <= 0xFFFFF);
        }
        if loc > 0xFFFFF - inc {
            proof {
                assert(loc1 + spec_loc_inc(pt.1, pt.2)->Ok_0 > 0xFFFFF);
                lemma_step_err_bound(stin, lines@[i as int]@, loc1);
                lemma_fold_err(lines@, stin, i as int, AsmErrorV::ProgramTooLarge);
            }
            return Err(AsmError::ProgramTooLarge);
        }
        locs.push(loc);
        out_lines.push(ASMLine { opcode_spec: op, address_spec: ad });
        proof {
            assert(locs@[i as int] == loc);
            assert(entry_loc <= loc);
            assert forall|k: int| 0 <= k < lab_lines.len() implies ((
            #[trigger] ctx@.label_map[k]).1 == locs@[lab_lines[k]]
                && ctx@.label_map[k].0 == spec_parse_line(lines@[lab_lines[k]]@)->Ok_0.0) by {
                if k < lab_lines.len() - 1 || lab_lines[k] < i {
                    assert(locs@[lab_lines[k]] == locs@.subrange(0, i as int)[lab_lines[k]]);
                }
            }
        }
        loc = loc + inc;
        proof {
            let stnext = PassOneState {
                loc: loc as int,
                labels: ctx@.label_map,
                constants: ctx@.constant_map,
                pool: ctx@.literal_pool,
                lit_map: ctx@.literal_map,
                locs: locs_view(locs@),
            };
            assert(stnext.locs =~= stin.locs.push(loc1));
            assert(stnext.loc == loc1 + spec_loc_inc(pt.1, pt.2)->Ok_0);
            assert(stnext.lit_map == map1);
            if pt.0.len() > 0 {
                assert(find_label(stin.labels, pt.0) is None);
                assert(stnext.labels =~= stin.labels.push((pt.0, loc1)));
            } else {
                assert(stnext.labels == stin.labels);
            }
            assert(stnext.pool == (match pt.2 {
                AddressSpecV::Literal(c) => {
                    if !pool1.contains(c) && find_literal(map1, c) is None {
                        pool1.push(c)
                    } else {
                        pool1
                    }
                },
                _ => pool1,
            }));
            assert(stnext.constants == (match pt.2 {
                AddressSpecV::Constant(c) => {
                    if pt.0.len() > 0 {
                        stin.constants.push((pt.0, c))
                    } else {
                        stin.constants
                    }
                },
                _ => stin.constants,
            }));
            lemma_step_ok(stin, lines@[i as int]@, pool1, map1, loc1, stnext);
            lemma_fold_advance(lines@, stin, stnext, i as int);
        }
        i = i + 1;
    }
    let ghost stcur = (PassOneState {
        loc: loc as int,
        labels: ctx@.label_map,
        constants: ctx@.constant_map,
        pool: ctx@.literal_pool,
        lit_map: ctx@.literal_map,
        locs: locs_view(locs@),
    });
    proof {
        assert(spec_pass_one(lines@) == spec_pass_one_from(lines@, stcur, lines@.len() as int));
        assert(spec_pass_one_lines(lines@, stcur, lines@.len() as int) == Ok::<
            PassOneState,
            AsmErrorV,
        >(stcur));
    }
    match flush_literals(&mut ctx, loc) {
        Ok(l2) => {
            proof {
                assert(spec_flush_pool(stcur.pool, stcur.lit_map, stcur.loc)
                    == Ok::<(Seq<(ConstantV, int)>, int), AsmErrorV>(
                    (ctx@.literal_map, l2 as int),
                ));
                let stfinal = PassOneState {
                    loc: l2 as int,
                    pool: Seq::empty(),
                    lit_map: ctx@.literal_map,
                    ..stcur
                };
                assert(spec_pass_one(lines@) == Ok::<PassOneState, AsmErrorV>(stfinal));
                assert(stfinal.pool =~= ctx@.literal_pool);
            }
        },
        Err(e) => {
            proof {
                assert(spec_flush_pool(stcur.pool, stcur.lit_map, stcur.loc) matches Err(ev)
                    && e@ == ev);
                assert(spec_pass_one(lines@) == Err::<PassOneState, AsmErrorV>(e@));
            }
            return Err(e);
        },
    }
    Ok(PassOneOutput { ctx, lines: out_lines, locs, start, label_lines: Ghost(lab_lines) })
}

/// *Label-address injectivity.* Over a label table as pass one builds it —
/// each entry defined by one line, in textual order, with the lines'
/// addresses non-decreasing and advancing by each line's size — no two
/// labels share an address, provided every labeled line other than the
/// last labeled one occupies at least one byte. (A zero-size labeled line,
/// such as a labeled `EQU` or `BASE`, shares its address with the next
/// label; such programs are left out of the hypothesis.)
pub proof fn lemma_label_addresses_injective(
    labels: Seq<(Seq<char>, int)>,
    lab_lines: Seq<int>,
    lines: Seq<ASMLineV>,
    locs: Seq<int>,
)
    requires
        lab_lines.len() == labels.len(),
        locs.len() == lines.len(),
        forall|k: int| 0 <= k < labels.len() ==> 0 <= #[trigger] lab_lines[k] < lines.len(),
        forall|k: int|
            0 <= k < labels.len() ==> (#[trigger] labels[k]).1 == locs[lab_lines[k]],
        forall|k1: int, k2: int|
            0 <= k1 < k2 < labels.len() ==> #[trigger] lab_lines[k1] < #[trigger] lab_lines[k2],
        forall|i: int, j: int| 0 <= i <= j < locs.len() ==> #[trigger] locs[i] <= #[trigger] locs[j],
        forall|i: int|
            0 <= i < lines.len() - 1 ==> #[trigger] locs[i] + spec_loc_inc(
                lines[i].opcode_spec,
                lines[i].address_spec,
            )->Ok_0 <= locs[i + 1],
        forall|k: int|
            0 <= k < labels.len() - 1 ==> spec_loc_inc(
                lines[#[trigger] lab_lines[k]].opcode_spec,
                lines[lab_lines[k]].address_spec,
            )->Ok_0 > 0,
    ensures
        forall|k1: int, k2: int|
            0 <= k1 < k2 < labels.len() ==> (#[trigger] labels[k1]).1 != (#[trigger] labels[k2]).1,
{
    assert forall|k1: int, k2: int|
        0 <= k1 < k2 < labels.len() implies (#[trigger] labels[k1]).1
        != (#[trigger] labels[k2]).1 by {
        let i1 = lab_lines[k1];
        let i2 = lab_lines[k2];
        assert(i1 < i2);
        assert(k1 < labels.len() - 1);
        assert(locs[i1] + spec_loc_inc(lines[i1].opcode_spec, lines[i1].address_spec)->Ok_0
            <= locs[i1 + 1]);
        assert(locs[i1 + 1] <= locs[i2]);
    }
}

/// The parsed lines as mathematical values.
pub open spec fn lines_view(v: Seq<ASMLine>) -> Seq<ASMLineV> {
    v.map_values(|l: ASMLine| l@)
}

/// The line addresses as mathematical values.
pub open spec fn locs_view(v: Seq<usize>) -> Seq<int> {
    v.map_values(|u: usize| u as int)
}

/// The base-register value in force before line `i` of pass two: zero at
/// the start, then whatever each line's encoding leaves behind.
pub open spec fn spec_base_before(
    gm: GlobalMapV,
    lines: Seq<ASMLineV>,
    locs: Seq<int>,
    i: int,
) -> int
    decreases i,
{
    if i <= 0 {
        0
    } else {
        match crate::encoder::spec_object_code(
            spec_base_before(gm, lines, locs, i - 1),
            locs[i - 1],
            gm,
            lines[i - 1],
        ) {
            Ok(t) => t.1,
            Err(_) => 0,
        }
    }
}

/// How an emitted record relates to its mathematical counterpart.
pub open spec fn opt_code_matches(o: Option<String>, s: Option<Seq<char>>) -> bool {
    match (o, s) {
        (Some(x), Some(y)) => x@ == y,
        (None, None) => true,
        _ => false,
    }
}

/// Record `j` of a pass-two run agrees with the specified encoding of
/// line `j`.
pub open spec fn code_ok_at(
    gm: GlobalMapV,
    lv: Seq<ASMLineV>,
    pv: Seq<int>,
    out: Seq<Option<String>>,
    j: int,
) -> bool {
    let s = crate::encoder::spec_object_code(spec_base_before(gm, lv, pv, j), pv[j], gm, lv[j]);
    s is Ok && opt_code_matches(out[j], s->Ok_0.0)
}

/// Walks the parsed lines in order, threading the base register and the
/// location, and emits one object-code record per line.
///
/// Each record agrees with [`crate::encoder::spec_object_code`] at that
/// line's address, under the base value the preceding lines left behind;
/// the first encoding error aborts the pass and is returned.
#[verifier::rlimit(50)]
pub fn pass_two(global_map: &GlobalMap, asm_lines: &Vec<ASMLine>, locs: &Vec<usize>) -> (r: Result<
    Vec<Option<String>>,
    AsmError,
>)
    requires
        global_map_wf(global_map@),
        locs@.len() == asm_lines@.len(),
        forall|i: int|
            0 <= i < asm_lines@.len() ==> address_spec_wf(
                (#[trigger] asm_lines@[i])@.address_spec,
            ),
        forall|i: int| 0 <= i < locs@.len() ==> #[trigger] locs@[i] <= 0xFFFFF,
        forall|i: int|
            0 <= i < asm_lines@.len() ==> (spec_loc_inc(
                (#[trigger] asm_lines@[i])@.opcode_spec,
                asm_lines@[i]@.address_spec,
            ) matches Ok(n) ==> locs@[i] + n <= 0xFFFFF),
    ensures
        r matches Ok(out) ==> {
            &&& out@.len() == asm_lines@.len()
            &&& forall|i: int|
                0 <= i < asm_lines@.len() ==> #[trigger] code_ok_at(
                    global_map@,
                    lines_view(asm_lines@),
                    locs_view(locs@),
                    out@,
                    i,
                )
        },
        r matches Err(e) ==> exists|i: int|
            0 <= i < asm_lines@.len() && (#[trigger] crate::encoder::spec_object_code(
                spec_base_before(global_map@, lines_view(asm_lines@), locs_view(locs@), i),
                locs_view(locs@)[i],
                global_map@,
                lines_view(asm_lines@)[i],
            ) matches Err(ev) && e@ == ev),
{
    let ghost gm = global_map@;
    let ghost lv = lines_view(asm_lines@);
    let ghost pv = locs_view(locs@);
    let mut out: Vec<Option<String>> = Vec::new();
    let mut base: usize = 0;
    let mut i: usize = 0;
    while i < asm_lines.len()
        invariant
            i <= asm_lines@.len(),
            out@.len() == i,
            gm == global_map@,
            lv == lines_view(asm_lines@),
            pv == locs_view(locs@),
            global_map_wf(global_map@),
            locs@.len() == asm_lines@.len(),
            forall|j: int|
                0 <= j < asm_lines@.len() ==> address_spec_wf(
                    (#[trigger] asm_lines@[j])@.address_spec,
                ),
            forall|j: int| 0 <= j < locs@.len() ==> #[trigger] locs@[j] <= 0xFFFFF,
            forall|j: int|
                0 <= j < asm_lines@.len() ==> (spec_loc_inc(
                    (#[trigger] asm_lines@[j])@.opcode_spec,
                    asm_lines@[j]@.address_spec,
                ) matches Ok(n) ==> locs@[j] + n <= 0xFFFFF),
            base as int == spec_base_before(gm, lv, pv, i as int),
            forall|j: int| 0 <= j < i ==> #[trigger] code_ok_at(gm, lv, pv, out@, j),
        decreases asm_lines@.len() - i,
    {
        proof {
            assert(lv[i as int] == asm_lines@[i as int]@);
            assert(pv[i as int] == locs@[i as int] as int);
        }
        match crate::encoder::get_object_code(base, locs[i], global_map, &asm_lines[i]) {
            Ok((code, b2, _p2)) => {
                let ghost cg = code;
                let ghost outb = out@;
                out.push(code);
                base = b2;
                proof {
                    let s = crate::encoder::spec_object_code(
                        spec_base_before(gm, lv, pv, i as int),
                        pv[i as int],
                        gm,
                        lv[i as int],
                    );
                    assert(out@ =~= outb.push(cg));
                    assert(s is Ok);
                    assert(opt_code_matches(out@[i as int], s->Ok_0.0));
                    assert(spec_base_before(gm, lv, pv, i + 1) == b2 as int);
                    assert forall|j: int| 0 <= j < i + 1 implies #[trigger] code_ok_at(
                        gm,
                        lv,
                        pv,
                        out@,
                        j,
                    ) by {
                        if j < i {
                            assert(out@[j] == outb[j]);
                            assert(code_ok_at(gm, lv, pv, outb, j));
                        } else {
                            assert(out@[j] == cg);
                        }
                    }
                }
            },
            Err(e) => {
                proof {
                    let s = crate::encoder::spec_object_code(
                        spec_base_before(gm, lv, pv, i as int),
                        pv[i as int],
                        gm,
                        lv[i as int],
                    );
                    assert(s matches Err(ev) && e@ == ev);
                }
                return Err(e);
            },
        }
        i = i + 1;
    }
    proof {
        assert forall|j: int| 0 <= j < asm_lines@.len() implies #[trigger] code_ok_at(
            global_map@,
            lines_view(asm_lines@),
            locs_view(locs@),
            out@,
            j,
        ) by {
            assert(code_ok_at(gm, lv, pv, out@, j));
        }
    }
    Ok(out)
}

/// Runs pass one and pass two over the source lines and returns one
/// object-code record per line: the emitted hexadecimal string, or nothing
/// for a silent directive.
///
/// On success every input line parses, the first line is a `START`
/// directive, and each emitted string is exactly twice its line's size in
/// bytes.
/// Every emitted record of a correct pass-two run is twice its line's
/// size in bytes.
proof fn lemma_assemble_sizes(
    lines: Seq<String>,
    gm: GlobalMapV,
    lv: Seq<ASMLineV>,
    pv: Seq<int>,
    out: Seq<Option<String>>,
)
    requires
        lv.len() == lines.len(),
        forall|i: int| 0 <= i < lines.len() ==> #[trigger] lv[i] == line_of(lines[i]@),
        forall|i: int| 0 <= i < lines.len() ==> address_spec_wf((#[trigger] lv[i]).address_spec),
        forall|i: int| 0 <= i < lines.len() ==> #[trigger] code_ok_at(gm, lv, pv, out, i),
    ensures
        forall|i: int|
            0 <= i < lines.len() ==> ((#[trigger] out[i]) matches Some(code) ==> (spec_loc_inc(
                line_of(lines[i]@).opcode_spec,
                line_of(lines[i]@).address_spec,
            ) is Ok && code@.len() == 2 * spec_loc_inc(
                line_of(lines[i]@).opcode_spec,
                line_of(lines[i]@).address_spec,
            )->Ok_0)),
{
    assert forall|i: int|
        0 <= i < lines.len() implies ((#[trigger] out[i]) matches Some(code) ==> (spec_loc_inc(
        line_of(lines[i]@).opcode_spec,
        line_of(lines[i]@).address_spec,
    ) is Ok && code@.len() == 2 * spec_loc_inc(
        line_of(lines[i]@).opcode_spec,
        line_of(lines[i]@).address_spec,
    )->Ok_0)) by {
        assert(code_ok_at(gm, lv, pv, out, i));
        assert(lv[i] == line_of(lines[i]@));
        crate::laws::lemma_size_consistency(spec_base_before(gm, lv, pv, i), pv[i], gm, lv[i]);
    }
}

/// A pass-two error witness, rewritten over the pass-one state it came
/// from.
proof fn lemma_assemble_err_transfer(
    lines: Seq<String>,
    gm: GlobalMapV,
    lv: Seq<ASMLineV>,
    pv: Seq<int>,
    st: PassOneState,
    e: AsmErrorV,
)
    requires
        st.labels == gm.label_map,
        st.constants == gm.constant_map,
        st.pool == gm.literal_pool,
        st.lit_map == gm.literal_map,
        st.locs == pv,
        lv.len() == lines.len(),
        forall|i: int| 0 <= i < lines.len() ==> #[trigger] lv[i] == line_of(lines[i]@),
        exists|i: int|
            0 <= i < lv.len() && (#[trigger] crate::encoder::spec_object_code(
                spec_base_before(gm, lv, pv, i),
                pv[i],
                gm,
                lv[i],
            ) matches Err(ev) && e == ev),
    ensures
        exists|i: int|
            0 <= i < lines.len() && (#[trigger] crate::encoder::spec_object_code(
                spec_base_before(gm_of_state(st), parsed_lines(lines), st.locs, i),
                st.locs[i],
                gm_of_state(st),
                parsed_lines(lines)[i],
            ) matches Err(ev) && e == ev),
{
    assert(gm_of_state(st) =~= gm);
    assert(parsed_lines(lines) =~= lv);
    let i = choose|i: int|
        0 <= i < lv.len() && (#[trigger] crate::encoder::spec_object_code(
            spec_base_before(gm, lv, pv, i),
            pv[i],
            gm,
            lv[i],
        ) matches Err(ev) && e == ev);
    assert(0 <= i < lines.len() && (crate::encoder::spec_object_code(
        spec_base_before(gm_of_state(st), parsed_lines(lines), st.locs, i),
        st.locs[i],
        gm_of_state(st),
        parsed_lines(lines)[i],
    ) matches Err(ev) && e == ev));
}

#[verifier::rlimit(100)]
pub fn assemble(lines: &Vec<String>) -> (r: Result<Vec<Option<String>>, AsmError>)
    ensures
        lines@.len() == 0 ==> (r matches Err(e) && e@ == AsmErrorV::MissingStart),
        r matches Err(e) ==> {
            ||| (spec_pass_one(lines@) matches Err(ev) && e@ == ev)
            ||| (spec_pass_one(lines@) matches Ok(st) && (exists|i: int|
                0 <= i < lines@.len() && (#[trigger] crate::encoder::spec_object_code(
                    spec_base_before(gm_of_state(st), parsed_lines(lines@), st.locs, i),
                    st.locs[i],
                    gm_of_state(st),
                    parsed_lines(lines@)[i],
                ) matches Err(ev) && e@ == ev)))
        },
        r matches Ok(out) ==> {
            &&& spec_pass_one(lines@) is Ok
            &&& out@.len() == lines@.len()
            &&& lines@.len() > 0
            &&& forall|i: int|
                0 <= i < lines@.len() ==> spec_parse_line((#[trigger] lines@[i])@) is Ok
            &&& line_of(lines@[0]@).opcode_spec == OpcodeSpecV::Directive(Directive::Start)
            &&& forall|i: int|
                0 <= i < lines@.len() ==> ((#[trigger] out@[i]) matches Some(code) ==> (
                spec_loc_inc(
                    line_of(lines@[i]@).opcode_spec,
                    line_of(lines@[i]@).address_spec,
                ) is Ok && code@.len() == 2 * spec_loc_inc(
                    line_of(lines@[i]@).opcode_spec,
                    line_of(lines@[i]@).address_spec,
                )->Ok_0))
        },
{
    match pass_one(lines) {
        Ok(p1) => {
            match pass_two(&p1.ctx, &p1.lines, &p1.locs) {
                Ok(out) => {
                    proof {
                        let lv = lines_view(p1.lines@);
                        assert(forall|i: int|
                            0 <= i < lines@.len() ==> #[trigger] lv[i] == line_of(lines@[i]@));
                        assert(forall|i: int|
                            0 <= i < lines@.len() ==> address_spec_wf(
                                (#[trigger] lv[i]).address_spec,
                            ));
                        lemma_assemble_sizes(
                            lines@,
                            p1.ctx@,
                            lv,
                            locs_view(p1.locs@),
                            out@,
                        );
                    }
                    Ok(out)
                },
                Err(e) => {
                    proof {
                        let st = spec_pass_one(lines@)->Ok_0;
                        let lv = lines_view(p1.lines@);
                        assert(forall|i: int|
                            0 <= i < lines@.len() ==> #[trigger] lv[i] == line_of(lines@[i]@));
                        lemma_assemble_err_transfer(
                            lines@,
                            p1.ctx@,
                            lv,
                            locs_view(p1.locs@),
                            st,
                            e@,
                        );
                    }
                    Err(e)
                },
            }
        },
        Err(e) => Err(e),
    }
}

} // verus!
