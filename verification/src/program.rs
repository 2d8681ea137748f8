//! Assembly programs: the parser that turns source text into instructions
//! with their labels resolved, and instruction fetch.
use crate::inst::{
    inst_corresponds, inst_fields, labeled_is, lemma_corresponds_compose, lemma_corresponds_fields_transfer, lemma_corresponds_flip, spec_label_ok, spec_parse_inst, label_error, ArchReg,
    Inst, Label, LabeledInst, Pc, SpecInst, INST_SIZE,
};
use crate::tables::{label_table, label_table_get, label_table_insert, label_table_new, LabelTable};
use crate::text::{concat3, decimal, find_char, find_char_in, lemma_find_char, str_chars, trim, trim_range, usize_to_decimal};
use vstd::prelude::*;
use vstd::string::*;

verus! {

/// A parsed program: its instructions, the first at address 0, and the
/// address of each label.
pub struct Program {
    pub insts: Vec<Inst>,
    pub labels: LabelTable,
}

/// What the parser has gathered so far: instructions (labels unresolved)
/// and label addresses.
pub type ParseState = (Seq<SpecInst>, Map<Seq<char>, Pc>);

/// A line with the carriage return of a `\r\n` ending removed.
pub open spec fn strip_cr(l: Seq<char>) -> Seq<char> {
    if l.len() > 0 && l.last() == '\r' {
        l.drop_last()
    } else {
        l
    }
}

/// The text of a line that matters: trimmed, and cut at the first `;`.
pub open spec fn line_body(l: Seq<char>) -> Seq<char> {
    let t = trim(l);
    match find_char(t, ';') {
        Some(k) => t.take(k),
        None => t,
    }
}

/// The error for an unparsable label on line `i`.
pub open spec fn label_line_error(i: nat, name: Seq<char>) -> Seq<char> {
    "error parsing label on line "@ + decimal(i) + ": "@ + label_error(name)
}

/// The error for an unparsable instruction on line `i`.
pub open spec fn inst_line_error(i: nat, body: Seq<char>, e: Seq<char>) -> Seq<char> {
    "error parsing instruction '"@ + body + "' on line "@ + decimal(i) + ": "@ + e
}

/// One line, numbered `i` from 1: blank lines and comments are skipped,
/// `name:` defines a label at the address of the next instruction, anything
/// else is an instruction. `None` where parsing an immediate panics.
pub open spec fn parse_line(line: Seq<char>, i: nat, st: ParseState) -> Option<Result<ParseState, Seq<char>>> {
    let b = line_body(line);
    if b.len() == 0 {
        Some(Ok(st))
    } else if b.last() == ':' {
        let name = b.drop_last();
        if spec_label_ok(name) {
            Some(Ok((st.0, st.1.insert(name, Pc((INST_SIZE * st.0.len()) as u32)))))
        } else {
            Some(Err(label_line_error(i, name)))
        }
    } else {
        match spec_parse_inst(b) {
            None => None,
            Some(Ok(si)) => Some(Ok((st.0.push(si), st.1))),
            Some(Err(e)) => Some(Err(inst_line_error(i, b, e))),
        }
    }
}

/// The lines of `s` (split at `\n`, a `\r` before it dropped), numbered from
/// `n + 1`, parsed in order from `st`; stops at the first error.
pub open spec fn parse_lines(s: Seq<char>, n: nat, st: ParseState) -> Option<Result<ParseState, Seq<char>>>
    decreases s.len(),
{
    if s.len() == 0 {
        Some(Ok(st))
    } else {
        match find_char(s, '\n') {
            Some(k) => {
                proof {
                    lemma_find_char(s, '\n');
                }
                match parse_line(strip_cr(s.take(k)), n + 1, st) {
                    None => None,
                    Some(Err(e)) => Some(Err(e)),
                    Some(Ok(st2)) => if 0 <= k < s.len() {
                        parse_lines(s.skip(k + 1), n + 1, st2)
                    } else {
                        None
                    },
                }
            },
            None => parse_line(s, n + 1, st),
        }
    }
}

/// The outcome of parsing `s`, labels not yet resolved.
pub open spec fn spec_parse_program(s: Seq<char>) -> Option<Result<ParseState, Seq<char>>> {
    parse_lines(s, 0, (Seq::empty(), Map::empty()))
}

/// The label addresses a table holds.
pub open spec fn labels_of(t: &LabelTable) -> Map<Seq<char>, Pc> {
    label_table(*t)
}

/// Every label `si` jumps to is defined.
pub open spec fn labels_defined(si: SpecInst, labels: Map<Seq<char>, Pc>) -> bool {
    inst_fields(si, |a: ArchReg| true, |d: ArchReg| true, |l: Seq<char>| labels.contains_key(l))
}

/// `i` is `si` with its jump labels replaced by their addresses.
pub open spec fn resolved(si: SpecInst, i: Inst, labels: Map<Seq<char>, Pc>) -> bool {
    inst_corresponds(si, i, |a: ArchReg, b: ArchReg| a == b, |a: ArchReg, b: ArchReg| a == b, |l: Seq<char>, p: Pc| labels[l] == p)
}

/// Parsing `s` neither panics on an immediate nor meets an undefined label.
pub open spec fn parses_without_panic(s: Seq<char>) -> bool {
    match spec_parse_program(s) {
        None => false,
        Some(Err(_)) => true,
        Some(Ok(st)) => forall|k: int| 0 <= k < st.0.len() ==> labels_defined(#[trigger] st.0[k], st.1),
    }
}

/// One step of `parse_lines`: the first line, then the rest.
pub proof fn lemma_parse_lines_step(rest: Seq<char>, n: nat, st: ParseState, line: Seq<char>, after: Seq<char>)
    requires
        rest.len() > 0,
        match find_char(rest, '\n') {
            Some(k) => line == strip_cr(rest.take(k)) && after == rest.skip(k + 1),
            None => line == rest && after == Seq::<char>::empty(),
        },
    ensures
        parse_lines(rest, n, st) == match parse_line(line, n + 1, st) {
            None => None,
            Some(Err(e)) => Some(Err(e)),
            Some(Ok(st2)) => parse_lines(after, n + 1, st2),
        },
{
    lemma_find_char(rest, '\n');
    match find_char(rest, '\n') {
        Some(k) => {},
        None => {
            match parse_line(line, n + 1, st) {
                Some(Ok(st2)) => {
                    assert(parse_lines(after, n + 1, st2) == Some(Ok::<ParseState, Seq<char>>(st2)));
                },
                _ => {},
            }
        },
    }
}

/// The instruction a processor fetches at `pc`: the program's, or `halt`
/// past its end.
pub open spec fn inst_at(prog: Seq<Inst>, pc: u32) -> Inst {
    if (pc / INST_SIZE) < prog.len() {
        prog[(pc / INST_SIZE) as int]
    } else {
        Inst::Halt
    }
}

/// Whether the jump label of `inst`, if it has one, is in `labels`.
fn label_known(inst: &LabeledInst, labels: &LabelTable, Ghost(si): Ghost<SpecInst>) -> (b: bool)
    requires
        labeled_is(*inst, si),
    ensures
        b == labels_defined(si, label_table(*labels)),
{
    match inst {
        Inst::Jump(l) | Inst::JumpAndLink(_, l) | Inst::BranchIfEqual(_, _, l) | Inst::BranchIfNotEqual(_, _, l)
        | Inst::BranchIfGreaterEqual(_, _, l) | Inst::BranchIfLess(_, _, l) => label_table_get(labels, l).is_some(),
        _ => true,
    }
}

impl Program {
    /// The instruction at address `pc`; `None` past the end.
    pub fn fetch(&self, pc: Pc) -> (r: Option<&Inst>)
        requires
            pc.0 % INST_SIZE == 0,
        ensures
            r == if (pc.0 / INST_SIZE) < self.insts@.len() {
                Some(&self.insts@[(pc.0 / INST_SIZE) as int])
            } else {
                None
            },
    {
        let i = (pc.0 / INST_SIZE) as usize;
        if i < self.insts.len() {
            Some(&self.insts[i])
        } else {
            None
        }
    }

    /// Parses an assembly program (see `spec_parse_program`), then resolves
    /// every jump label to its address. `None` where reading it panics: an
    /// instruction that panics (see `spec_parse_inst`) or a jump to a label
    /// that is not defined.
    #[verifier::rlimit(100)]
    #[verifier::spinoff_prover]
    pub fn parse(s: &str) -> (r: Option<Result<Program, String>>)
        requires
            s@.len() < 0x4000_0000,
        ensures
            r is None <==> !parses_without_panic(s@),
            r matches Some(x) ==> match spec_parse_program(s@) {
                Some(Ok(st)) => x matches Ok(p) && p.insts@.len() == st.0.len() && label_table(p.labels) == st.1
                    && forall|k: int| 0 <= k < st.0.len() ==> resolved(#[trigger] st.0[k], p.insts@[k], st.1),
                Some(Err(e)) => x matches Err(m) && m@ == e,
                None => false,
            },
    {
        let cs = str_chars(s);
        let n = cs.len();
        let mut pos: usize = 0;
        let mut lineno: usize = 0;
        let mut insts: Vec<LabeledInst> = Vec::new();
        let mut labels = label_table_new();
        let ghost mut spec_insts: Seq<SpecInst> = Seq::empty();
        proof {
            assert(cs@.skip(0) == s@);
            assert(label_table(labels) == Map::<Seq<char>, Pc>::empty());
        }
        while pos < n
            invariant
                cs@ == s@,
                n == cs@.len(),
                n < 0x4000_0000,
                pos <= n,
                lineno <= pos,
                spec_insts.len() <= pos,
                spec_parse_program(s@) == parse_lines(cs@.skip(pos as int), lineno as nat, (spec_insts, label_table(labels))),
                insts@.len() == spec_insts.len(),
                forall|k: int| 0 <= k < insts@.len() ==> labeled_is(#[trigger] insts@[k], spec_insts[k]),
            decreases n - pos,
        {
            let ghost rest = cs@.skip(pos as int);
            let ghost st = (spec_insts, label_table(labels));
            proof {
                assert(cs@.subrange(pos as int, n as int) == rest);
                lemma_find_char(rest, '\n');
            }
            let nl = find_char_in(&cs, pos, n, '\n');
            let (hi0, next) = match nl {
                Some(p) => (p, p + 1),
                None => (n, n),
            };
            let hi = if nl.is_some() && hi0 > pos && cs[hi0 - 1] == '\r' {
                hi0 - 1
            } else {
                hi0
            };
            let ghost line = cs@.subrange(pos as int, hi as int);
            proof {
                match nl {
                    Some(p) => {
                        assert(rest.take(p - pos) == cs@.subrange(pos as int, p as int));
                        assert(line == strip_cr(rest.take(p - pos)));
                        assert(rest.skip(p - pos + 1) == cs@.skip(next as int));
                    },
                    None => {
                        assert(line == rest);
                        assert(cs@.skip(next as int) == Seq::<char>::empty());
                    },
                }
                lemma_parse_lines_step(rest, lineno as nat, st, line, cs@.skip(next as int));
            }
            let (a, b) = trim_range(&cs, pos, hi);
            proof {
                lemma_find_char(cs@.subrange(a as int, b as int), ';');
            }
            let e = match find_char_in(&cs, a, b, ';') {
                Some(q) => q,
                None => b,
            };
            proof {
                assert(cs@.subrange(a as int, e as int) == line_body(line));
            }
            lineno = lineno + 1;
            if a == e {
                pos = next;
                continue;
            }
            if cs[e - 1] == ':' {
                let name = s.substring_char(a, e - 1);
                proof {
                    assert(name@ == line_body(line).drop_last());
                }
                match Label::from_str(name) {
                    Ok(l) => {
                        let pc = Pc(INST_SIZE * (insts.len() as u32));
                        label_table_insert(&mut labels, l, pc);
                    },
                    Err(err) => {
                        let mut m = concat3("error parsing label on line ", usize_to_decimal(lineno).as_str(), ": ");
                        m.append(err.as_str());
                        return Some(Err(m));
                    },
                }
            } else {
                let body = s.substring_char(a, e);
                proof {
                    assert(body@ == line_body(line));
                }
                match LabeledInst::parse_opt(body) {
                    None => {
                        proof {
                            assert(spec_parse_program(s@) is None);
                        }
                        return None;
                    },
                    Some(Ok(inst)) => {
                        proof {
                            spec_insts = spec_insts.push(spec_parse_inst(body@)->0->Ok_0);
                        }
                        insts.push(inst);
                    },
                    Some(Err(err)) => {
                        let mut m = concat3("error parsing instruction '", body, "' on line ");
                        m.append(usize_to_decimal(lineno).as_str());
                        m.append(": ");
                        m.append(err.as_str());
                        return Some(Err(m));
                    },
                }
            }
            pos = next;
        }
        let ghost lab = label_table(labels);
        proof {
            assert(cs@.skip(pos as int) == Seq::<char>::empty());
            assert(spec_parse_program(s@) == Some(Ok::<ParseState, Seq<char>>((spec_insts, lab))));
        }
        let mut c: usize = 0;
        while c < insts.len()
            invariant
                c <= insts@.len(),
                insts@.len() == spec_insts.len(),
                forall|j: int| 0 <= j < insts@.len() ==> labeled_is(#[trigger] insts@[j], spec_insts[j]),
                lab == label_table(labels),
                spec_parse_program(s@) == Some(Ok::<ParseState, Seq<char>>((spec_insts, lab))),
                forall|j: int| 0 <= j < c ==> labels_defined(#[trigger] spec_insts[j], lab),
            decreases insts@.len() - c,
        {
            if !label_known(&insts[c], &labels, Ghost(spec_insts[c as int])) {
                proof {
                    assert(!labels_defined(spec_insts[c as int], lab));
                }
                return None;
            }
            c = c + 1;
        }
        let mut out: Vec<Inst> = Vec::new();
        let ghost all_insts = insts@;
        let mut k: usize = 0;
        while insts.len() > 0
            invariant
                insts@ == all_insts.skip(k as int),
                all_insts.len() == spec_insts.len(),
                all_insts.len() < 0x4000_0000,
                forall|j: int| 0 <= j < all_insts.len() ==> labeled_is(#[trigger] all_insts[j], spec_insts[j]),
                spec_parse_program(s@) == Some(Ok::<ParseState, Seq<char>>((spec_insts, lab))),
                parses_without_panic(s@),
                lab == label_table(labels),
                forall|j: int| 0 <= j < spec_insts.len() ==> labels_defined(#[trigger] spec_insts[j], lab),
                k <= all_insts.len(),
                out@.len() == k,
                forall|j: int| 0 <= j < k ==> resolved(#[trigger] spec_insts[j], out@[j], lab),
            decreases insts@.len(),
        {
            let inst = insts.remove(0);
            let ghost si = spec_insts[k as int];
            let lt = &labels;
            let jump_fn = |l: Label| -> (p: Pc)
                requires
                    labels_of(lt).contains_key(l@),
                ensures
                    p == labels_of(lt)[l@],
                {
                    label_table_get(lt, &l).unwrap()
                };
            proof {
                assert(inst == all_insts[k as int]);
                assert(labeled_is(inst, si));
                lemma_corresponds_fields_transfer(
                    inst,
                    si,
                    |a: ArchReg, b: ArchReg| a == b,
                    |a: ArchReg, b: ArchReg| a == b,
                    |a: Label, b: Seq<char>| a@ == b,
                    |a: ArchReg| true,
                    |d: ArchReg| true,
                    |l: Seq<char>| lab.contains_key(l),
                    |a: ArchReg| true,
                    |d: ArchReg| true,
                    |l: Label| call_requires(jump_fn, (l,)),
                );
            }
            let resolved_inst = inst.map_jumps(jump_fn);
            proof {
                lemma_corresponds_flip(
                    inst,
                    si,
                    |a: ArchReg, b: ArchReg| a == b,
                    |a: ArchReg, b: ArchReg| a == b,
                    |a: Label, b: Seq<char>| a@ == b,
                );
                lemma_corresponds_compose(
                    si,
                    inst,
                    resolved_inst,
                    |y: ArchReg, x: ArchReg| x == y,
                    |y: ArchReg, x: ArchReg| x == y,
                    |y: Seq<char>, x: Label| x@ == y,
                    |a: ArchReg, b: ArchReg| a == b,
                    |a: ArchReg, b: ArchReg| a == b,
                    |a: Label, b: Pc| call_ensures(jump_fn, (a,), b),
                    |a: ArchReg, b: ArchReg| a == b,
                    |a: ArchReg, b: ArchReg| a == b,
                    |l: Seq<char>, p: Pc| lab[l] == p,
                );
            }
            out.push(resolved_inst);
            k = k + 1;
            proof {
                assert(insts@ =~= all_insts.skip(k as int));
            }
        }
        Some(Ok(Program { insts: out, labels }))
    }

    /// Parses an assembly program that reads without panicking (see
    /// `parse`).
    pub fn from_str(s: &str) -> (r: Result<Program, String>)
        requires
            parses_without_panic(s@),
            s@.len() < 0x4000_0000,
        ensures
            match spec_parse_program(s@) {
                Some(Ok(st)) => r matches Ok(p) && p.insts@.len() == st.0.len() && label_table(p.labels) == st.1
                    && forall|k: int| 0 <= k < st.0.len() ==> resolved(#[trigger] st.0[k], p.insts@[k], st.1),
                Some(Err(e)) => r matches Err(m) && m@ == e,
                None => false,
            },
    {
        match Self::parse(s) {
            Some(r) => r,
            None => {
                proof {
                    assert(false);
                }
                Err(String::new())
            },
        }
    }
}

} // verus!
