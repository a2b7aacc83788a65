//! The laws of the classification, proved once and for all over the spec
//! model of `crate::scan`: every well-formed dotted chain classifies as the
//! expected kind, rendering a classified value and re-classifying it gives
//! the value back, and re-classifying a malformed token's text gives the
//! identical malformed token.

use vstd::prelude::*;
use crate::chars::{is_alpha_char, is_digit_char, is_upper_char};
use crate::ident::IdentModel;
use crate::scan::{
    ScanSt, Outcome, alpha_step, classify_spec, class_run_end, decide, dot_step, finish, init_st,
    is_ident_char, scan,
};

verus! {

/// A character that may continue an identifier part: alphabetic, or an
/// ASCII digit.
pub open spec fn is_alnum_char(c: char) -> bool {
    is_alpha_char(c) || is_digit_char(c)
}

/// A well-formed identifier part: non-empty, leading with an alphabetic
/// character, continuing with alphabetic characters and ASCII digits.
pub open spec fn wf_part(p: Seq<char>) -> bool {
    &&& p.len() > 0
    &&& is_alpha_char(p[0])
    &&& forall|j: int| 1 <= j < p.len() ==> is_alnum_char(#[trigger] p[j])
}

/// A well-formed part whose leading character is not uppercase.
pub open spec fn wf_lower_part(p: Seq<char>) -> bool {
    wf_part(p) && !is_upper_char(p[0])
}

/// A well-formed part whose leading character is uppercase.
pub open spec fn wf_upper_part(p: Seq<char>) -> bool {
    wf_part(p) && is_upper_char(p[0])
}

pub open spec fn all_upper_parts(ps: Seq<Seq<char>>) -> bool {
    forall|j: int| 0 <= j < ps.len() ==> wf_upper_part(#[trigger] ps[j])
}

pub open spec fn all_lower_parts(ps: Seq<Seq<char>>) -> bool {
    forall|j: int| 0 <= j < ps.len() ==> wf_lower_part(#[trigger] ps[j])
}

/// The given parts joined by dots, in order.
pub open spec fn join_dotted(parts: Seq<Seq<char>>) -> Seq<char>
    decreases parts.len(),
{
    if parts.len() == 0 {
        Seq::empty()
    } else if parts.len() == 1 {
        parts[0]
    } else {
        parts[0] + seq!['.'] + join_dotted(parts.drop_first())
    }
}

/// The dotted-segment text of a classified value: its qualifier parts and
/// value parts joined by dots, with a leading dot for an accessor function.
pub open spec fn render(m: IdentModel) -> Seq<char> {
    match m {
        IdentModel::Var { modules, name } => join_dotted(modules.push(name)),
        IdentModel::Variant { modules, name } => join_dotted(modules.push(name)),
        IdentModel::Field { modules, names } => join_dotted(modules + names),
        IdentModel::AccessorFunction { name } => seq!['.'] + name,
        IdentModel::Malformed { text } => text,
    }
}

/// A well-formed classified value: one the structural rules could ever
/// produce. Qualifier parts are uppercase-leading, value parts are
/// lowercase-leading except for a variant, and a field has at least two
/// value parts.
pub open spec fn wf_model(m: IdentModel) -> bool {
    match m {
        IdentModel::Var { modules, name } => all_upper_parts(modules) && wf_lower_part(name),
        IdentModel::Variant { modules, name } => all_upper_parts(modules) && wf_upper_part(name),
        IdentModel::Field { modules, names } => all_upper_parts(modules) && all_lower_parts(names)
            && names.len() >= 2,
        IdentModel::AccessorFunction { name } => wf_lower_part(name),
        IdentModel::Malformed { .. } => false,
    }
}

proof fn lemma_class_run_end_bounds(s: Seq<char>, i: int)
    requires
        0 <= i <= s.len(),
    ensures
        i <= class_run_end(s, i) <= s.len(),
    decreases s.len() - i,
{
    if i < s.len() && is_ident_char(s[i]) {
        lemma_class_run_end_bounds(s, i + 1);
    }
}

proof fn lemma_class_run_chars(s: Seq<char>, i: int, j: int)
    requires
        0 <= i <= j,
        j < class_run_end(s, i),
    ensures
        j < s.len() && is_ident_char(s[j]),
    decreases j - i,
{
    if i >= s.len() {
        assert(class_run_end(s, i) == s.len());
        assert(false);
    } else if !is_ident_char(s[i]) {
        assert(class_run_end(s, i) == i);
        assert(false);
    } else if i < j {
        lemma_class_run_chars(s, i + 1, j);
    }
}

proof fn lemma_class_run_end_all(s: Seq<char>, i: int)
    requires
        0 <= i <= s.len(),
        forall|j: int| i <= j < s.len() ==> is_ident_char(#[trigger] s[j]),
    ensures
        class_run_end(s, i) == s.len(),
    decreases s.len() - i,
{
    if i < s.len() {
        lemma_class_run_end_all(s, i + 1);
    }
}

/// Scanning a run of alphanumeric characters appends them all to the
/// current part.
proof fn lemma_scan_alnum_run(s: Seq<char>, i: int, st: ScanSt, n: int)
    requires
        0 <= i,
        0 <= n,
        i + n <= s.len(),
        st.buf.len() > 0,
        forall|j: int| i <= j < i + n ==> is_alnum_char(#[trigger] s[j]),
    ensures
        scan(s, i, st) == scan(s, i + n, (ScanSt { buf: st.buf + s.subrange(i, i + n), ..st })),
    decreases n,
{
    if n == 0 {
        assert(st.buf + s.subrange(i, i) =~= st.buf);
    } else {
        let c = s[i];
        let st2 = alpha_step(st, c);
        assert(is_alnum_char(c));
        assert(scan(s, i, st) == scan(s, i + 1, st2));
        lemma_scan_alnum_run(s, i + 1, st2, n - 1);
        assert(st2.buf + s.subrange(i + 1, i + n) =~= st.buf + s.subrange(i, i + n));
    }
}

/// Scanning a whole well-formed part from an empty buffer accumulates
/// exactly that part, with its capitalization fixed by its first character.
proof fn lemma_scan_part(s: Seq<char>, i: int, st: ScanSt, p: Seq<char>)
    requires
        0 <= i,
        i + p.len() <= s.len(),
        st.buf.len() == 0,
        wf_part(p),
        s.subrange(i, i + p.len()) == p,
    ensures
        scan(s, i, st) == scan(
            s,
            i + p.len(),
            (ScanSt { buf: p, cap: is_upper_char(p[0]), ..st }),
        ),
{
    assert(s[i] == p[0]);
    let st1 = alpha_step(st, s[i]);
    assert(scan(s, i, st) == scan(s, i + 1, st1));
    assert forall|j: int| i + 1 <= j < i + p.len() implies is_alnum_char(#[trigger] s[j]) by {
        assert(p[j - i] == s[j]);
    }
    lemma_scan_alnum_run(s, i + 1, st1, p.len() - 1);
    assert(st1.buf + s.subrange(i + 1, i + p.len()) =~= p);
}

/// Scanning a well-formed dotted chain of uppercase-leading parts followed
/// by lowercase-leading parts, from a part boundary, finalizes all the
/// parts in order and classifies at the end of the input.
proof fn lemma_scan_chain(
    s: Seq<char>,
    i: int,
    st: ScanSt,
    uppers: Seq<Seq<char>>,
    lowers: Seq<Seq<char>>,
)
    requires
        0 <= i <= s.len(),
        st.buf.len() == 0,
        all_upper_parts(uppers),
        all_lower_parts(lowers),
        uppers.len() + lowers.len() >= 1,
        uppers.len() > 0 ==> st.lowers.len() == 0,
        s.skip(i) == join_dotted(uppers + lowers),
    ensures
        scan(s, i, st) == decide(
            s,
            s.len() as int,
            (ScanSt {
                buf: Seq::empty(),
                caps: st.caps + uppers,
                lowers: st.lowers + lowers,
                cap: false,
                acc: st.acc,
            }),
        ),
    decreases uppers.len() + lowers.len(),
{
    let parts = uppers + lowers;
    let p = parts[0];
    assert(wf_part(p)) by {
        if uppers.len() > 0 {
            assert(p == uppers[0]);
        } else {
            assert(p == lowers[0]);
        }
    }
    if parts.len() == 1 {
        assert(join_dotted(parts) == p);
        assert(s.skip(i).len() == s.len() - i);
        assert(i + p.len() == s.len());
        assert(s.subrange(i, i + p.len()) =~= p) by {
            assert(forall|j: int| 0 <= j < p.len() ==> s.skip(i)[j] == s[i + j]);
        }
        lemma_scan_part(s, i, st, p);
        let stp = ScanSt { buf: p, cap: is_upper_char(p[0]), ..st };
        assert(scan(s, i + p.len(), stp) == finish(s, s.len() as int, stp, None));
        if uppers.len() > 0 {
            assert(p == uppers[0]);
            assert(lowers.len() == 0);
            assert(stp.lowers.len() == 0);
            assert(finish(s, s.len() as int, stp, None) == decide(
                s,
                s.len() as int,
                dot_step(stp),
            ));
            assert(dot_step(stp).caps =~= st.caps + uppers);
            assert(dot_step(stp).lowers =~= st.lowers + lowers);
        } else {
            assert(p == lowers[0]);
            assert(!is_upper_char(p[0]));
            assert(finish(s, s.len() as int, stp, None) == decide(
                s,
                s.len() as int,
                dot_step(stp),
            ));
            assert(dot_step(stp).caps =~= st.caps + uppers);
            assert(dot_step(stp).lowers =~= st.lowers + lowers);
        }
    } else {
        let rest = parts.drop_first();
        assert(join_dotted(parts) == p + seq!['.'] + join_dotted(rest));
        let d = i + p.len();
        assert(s.skip(i).len() == s.len() - i);
        assert(d + 1 <= s.len());
        assert(s.subrange(i, d) =~= p) by {
            assert(forall|j: int| 0 <= j < p.len() ==> s.skip(i)[j] == s[i + j]);
        }
        assert(s[d] == '.') by {
            assert(s.skip(i)[p.len() as int] == s[d]);
            assert((p + seq!['.'] + join_dotted(rest))[p.len() as int] == '.');
        }
        assert(s.skip(d + 1) =~= join_dotted(rest)) by {
            assert(forall|j: int| 0 <= j < s.len() - d - 1 ==> #[trigger] s.skip(d + 1)[j] == s.skip(
                i,
            )[j + p.len() + 1]);
        }
        lemma_scan_part(s, i, st, p);
        let stp = ScanSt { buf: p, cap: is_upper_char(p[0]), ..st };
        if is_upper_char(p[0]) {
            assert(uppers.len() > 0) by {
                if uppers.len() == 0 {
                    assert(p == lowers[0]);
                }
            }
            assert(stp.lowers.len() == 0);
        }
        assert(!is_alpha_char('.') && !is_digit_char('.'));
        assert(scan(s, d, stp) == scan(s, d + 1, dot_step(stp)));
        let st3 = dot_step(stp);
        if uppers.len() > 0 {
            assert(p == uppers[0]);
            let uppers2 = uppers.drop_first();
            assert(uppers2 + lowers =~= rest);
            lemma_scan_chain(s, d + 1, st3, uppers2, lowers);
            assert(st3.caps + uppers2 =~= st.caps + uppers);
            assert(st3.lowers + lowers =~= st.lowers + lowers);
            assert((ScanSt {
                buf: Seq::<char>::empty(),
                caps: st3.caps + uppers2,
                lowers: st3.lowers + lowers,
                cap: false,
                acc: st3.acc,
            }) == (ScanSt {
                buf: Seq::<char>::empty(),
                caps: st.caps + uppers,
                lowers: st.lowers + lowers,
                cap: false,
                acc: st.acc,
            }));
        } else {
            assert(p == lowers[0]);
            let lowers2 = lowers.drop_first();
            assert(uppers + lowers2 =~= rest);
            lemma_scan_chain(s, d + 1, st3, uppers, lowers2);
            assert(st3.caps + uppers =~= st.caps + uppers);
            assert(st3.lowers + lowers2 =~= st.lowers + lowers);
            assert((ScanSt {
                buf: Seq::<char>::empty(),
                caps: st3.caps + uppers,
                lowers: st3.lowers + lowers2,
                cap: false,
                acc: st3.acc,
            }) == (ScanSt {
                buf: Seq::<char>::empty(),
                caps: st.caps + uppers,
                lowers: st.lowers + lowers,
                cap: false,
                acc: st.acc,
            }));
        }
    }
}

/// Round trip: rendering any well-formed classified value as dotted text
/// and classifying that text gives the identical value back, consuming the
/// whole text, with no lookahead character left.
pub proof fn lemma_round_trip(m: IdentModel)
    requires
        wf_model(m),
    ensures
        classify_spec(render(m)) == (Outcome::Token {
            ident: m,
            take: render(m).len() as int,
        }),
{
    let s = render(m);
    match m {
        IdentModel::AccessorFunction { name } => {
            assert(s[0] == '.');
            assert(s.len() == 1 + name.len());
            assert(!is_alpha_char('.') && !is_digit_char('.'));
            assert(classify_spec(s) == scan(s, 1, init_st(true)));
            let parts = Seq::<Seq<char>>::empty().push(name);
            assert(s.skip(1) =~= name);
            assert(join_dotted(parts) == name);
            assert(Seq::<Seq<char>>::empty() + parts =~= parts);
            lemma_scan_chain(s, 1, init_st(true), Seq::empty(), parts);
            let stf = ScanSt {
                buf: Seq::<char>::empty(),
                caps: init_st(true).caps + Seq::<Seq<char>>::empty(),
                lowers: init_st(true).lowers + parts,
                cap: false,
                acc: true,
            };
            assert(stf.caps.len() == 0);
            assert(stf.lowers =~= parts);
            assert(stf.lowers[0] == name);
        },
        IdentModel::Var { modules, name } => {
            let parts = modules.push(name);
            assert(parts =~= modules + seq![name]);
            lemma_chain_classify(s, parts, modules, seq![name]);
            let stf = ScanSt {
                buf: Seq::<char>::empty(),
                caps: init_st(false).caps + modules,
                lowers: init_st(false).lowers + seq![name],
                cap: false,
                acc: false,
            };
            assert(stf.caps =~= modules);
            assert(stf.lowers.len() == 1);
            assert(stf.lowers[0] == name);
        },
        IdentModel::Variant { modules, name } => {
            let parts = modules.push(name);
            assert(parts =~= modules.push(name) + Seq::<Seq<char>>::empty());
            lemma_chain_classify(s, parts, modules.push(name), Seq::empty());
            let stf = ScanSt {
                buf: Seq::<char>::empty(),
                caps: init_st(false).caps + modules.push(name),
                lowers: init_st(false).lowers + Seq::<Seq<char>>::empty(),
                cap: false,
                acc: false,
            };
            assert(stf.lowers.len() == 0);
            assert(stf.caps =~= modules.push(name));
            assert(stf.caps.last() == name);
            assert(stf.caps.drop_last() =~= modules);
        },
        IdentModel::Field { modules, names } => {
            let parts = modules + names;
            lemma_chain_classify(s, parts, modules, names);
            let stf = ScanSt {
                buf: Seq::<char>::empty(),
                caps: init_st(false).caps + modules,
                lowers: init_st(false).lowers + names,
                cap: false,
                acc: false,
            };
            assert(stf.caps =~= modules);
            assert(stf.lowers =~= names);
        },
        IdentModel::Malformed { .. } => {
            assert(false);
        },
    }
}

/// A chain that does not start with a dot is classified by scanning it from
/// its very first character.
proof fn lemma_chain_classify(
    s: Seq<char>,
    parts: Seq<Seq<char>>,
    uppers: Seq<Seq<char>>,
    lowers: Seq<Seq<char>>,
)
    requires
        parts == uppers + lowers,
        all_upper_parts(uppers),
        all_lower_parts(lowers),
        parts.len() >= 1,
        s == join_dotted(parts),
    ensures
        classify_spec(s) == decide(
            s,
            s.len() as int,
            (ScanSt {
                buf: Seq::empty(),
                caps: init_st(false).caps + uppers,
                lowers: init_st(false).lowers + lowers,
                cap: false,
                acc: false,
            }),
        ),
{
    let p = parts[0];
    assert(wf_part(p)) by {
        if uppers.len() > 0 {
            assert(p == uppers[0]);
        } else {
            assert(p == lowers[0]);
        }
    }
    lemma_join_first(parts);
    assert(is_alpha_char(s[0]));
    assert(classify_spec(s) == scan(s, 1, alpha_step(init_st(false), s[0])));
    assert(scan(s, 0, init_st(false)) == scan(s, 1, alpha_step(init_st(false), s[0])));
    assert(s.skip(0) =~= s);
    lemma_scan_chain(s, 0, init_st(false), uppers, lowers);
}

/// The first character of a joined chain is the first character of its
/// first part.
proof fn lemma_join_first(parts: Seq<Seq<char>>)
    requires
        parts.len() >= 1,
        parts[0].len() > 0,
    ensures
        join_dotted(parts).len() > 0,
        join_dotted(parts)[0] == parts[0][0],
{
}

/// Any single part with a non-uppercase leading letter — a letter followed
/// by letters and digits — classifies as a `Var` with no qualifier.
pub proof fn lemma_plain_var(s: Seq<char>)
    requires
        wf_lower_part(s),
    ensures
        classify_spec(s) == (Outcome::Token {
            ident: IdentModel::Var { modules: Seq::empty(), name: s },
            take: s.len() as int,
        }),
{
    lemma_round_trip(IdentModel::Var { modules: Seq::empty(), name: s });
    assert(Seq::<Seq<char>>::empty().push(s).len() == 1);
    assert(join_dotted(Seq::<Seq<char>>::empty().push(s)) == s);
}

/// Any single part with an uppercase leading letter classifies as a
/// `Variant` with no qualifier.
pub proof fn lemma_plain_variant(s: Seq<char>)
    requires
        wf_upper_part(s),
    ensures
        classify_spec(s) == (Outcome::Token {
            ident: IdentModel::Variant { modules: Seq::empty(), name: s },
            take: s.len() as int,
        }),
{
    lemma_round_trip(IdentModel::Variant { modules: Seq::empty(), name: s });
    assert(Seq::<Seq<char>>::empty().push(s).len() == 1);
    assert(join_dotted(Seq::<Seq<char>>::empty().push(s)) == s);
}

/// Any well-formed dotted chain of uppercase-leading qualifier parts
/// followed by at least one lowercase-leading part classifies as a `Var`
/// of the last part when there is exactly one, and as a `Field` of all of
/// them when there are two or more, with the qualifier parts as the
/// modules either way.
pub proof fn lemma_qualified_chain(modules: Seq<Seq<char>>, names: Seq<Seq<char>>)
    requires
        all_upper_parts(modules),
        all_lower_parts(names),
        names.len() >= 1,
    ensures
        names.len() == 1 ==> classify_spec(join_dotted(modules + names)) == (Outcome::Token {
            ident: IdentModel::Var { modules, name: names[0] },
            take: join_dotted(modules + names).len() as int,
        }),
        names.len() >= 2 ==> classify_spec(join_dotted(modules + names)) == (Outcome::Token {
            ident: IdentModel::Field { modules, names },
            take: join_dotted(modules + names).len() as int,
        }),
{
    if names.len() == 1 {
        lemma_round_trip(IdentModel::Var { modules, name: names[0] });
        assert(modules.push(names[0]) =~= modules + names);
    } else {
        lemma_round_trip(IdentModel::Field { modules, names });
    }
}

/// Any well-formed dotted chain made of uppercase-leading parts alone
/// classifies as a `Variant`: the last part is the value, the parts before
/// it are the modules.
pub proof fn lemma_capitalized_chain(parts: Seq<Seq<char>>)
    requires
        all_upper_parts(parts),
        parts.len() >= 1,
    ensures
        classify_spec(join_dotted(parts)) == (Outcome::Token {
            ident: IdentModel::Variant { modules: parts.drop_last(), name: parts.last() },
            take: join_dotted(parts).len() as int,
        }),
{
    assert(all_upper_parts(parts.drop_last())) by {
        assert(forall|j: int| 0 <= j < parts.len() - 1 ==> parts.drop_last()[j] == parts[j]);
    }
    lemma_round_trip(IdentModel::Variant { modules: parts.drop_last(), name: parts.last() });
    assert(parts.drop_last().push(parts.last()) =~= parts);
}

/// How far a scan that ends in a malformed token reached: its text is
/// exactly the first `take` characters of the input, at least as many as
/// were already consumed.
proof fn lemma_scan_malformed_shape(s: Seq<char>, i: int, st: ScanSt)
    requires
        1 <= i <= s.len(),
    ensures
        match scan(s, i, st) {
            Outcome::Token { ident, take } => i <= take <= s.len() && (ident matches
                IdentModel::Malformed { text } ==> text == s.subrange(0, take)),
            Outcome::Failed { .. } => true,
        },
    decreases s.len() - i,
{
    if i >= s.len() {
    } else {
        let c = s[i];
        if is_alpha_char(c) {
            lemma_scan_malformed_shape(s, i + 1, alpha_step(st, c));
        } else if is_digit_char(c) {
            if st.buf.len() == 0 {
                lemma_class_run_end_bounds(s, i + 1);
            } else {
                lemma_scan_malformed_shape(s, i + 1, alpha_step(st, c));
            }
        } else if c == '.' {
            if st.buf.len() == 0 || (st.cap && st.lowers.len() > 0) {
                lemma_class_run_end_bounds(s, i + 1);
            } else {
                lemma_scan_malformed_shape(s, i + 1, dot_step(st));
            }
        } else {
            lemma_class_run_end_bounds(s, i + 1);
        }
    }
}

/// A scan that ends in a malformed token behaves identically when the
/// input is cut right after that token's text.
proof fn lemma_scan_prefix_agree(s: Seq<char>, i: int, st: ScanSt, take: int)
    requires
        1 <= i <= take <= s.len(),
        scan(s, i, st) == (Outcome::Token {
            ident: IdentModel::Malformed { text: s.subrange(0, take) },
            take,
        }),
    ensures
        scan(s.subrange(0, take), i, st) == (Outcome::Token {
            ident: IdentModel::Malformed { text: s.subrange(0, take) },
            take,
        }),
    decreases take - i,
{
    let t = s.subrange(0, take);
    if i == take {
        if i == s.len() {
            assert(t =~= s);
        } else {
            let c = s[i];
            // Every branch that keeps scanning, and every recovery with an
            // absorbed run, ends strictly past `i`; only the accessor-arity
            // decision can end exactly here.
            if is_alpha_char(c) {
                lemma_scan_malformed_shape(s, i + 1, alpha_step(st, c));
                assert(false);
            } else if is_digit_char(c) {
                if st.buf.len() == 0 {
                    lemma_class_run_end_bounds(s, i + 1);
                } else {
                    lemma_scan_malformed_shape(s, i + 1, alpha_step(st, c));
                }
                assert(false);
            } else if c == '.' {
                if st.buf.len() == 0 || (st.cap && st.lowers.len() > 0) {
                    lemma_class_run_end_bounds(s, i + 1);
                } else {
                    lemma_scan_malformed_shape(s, i + 1, dot_step(st));
                }
                assert(false);
            } else {
                if st.buf.len() == 0 || (st.cap && st.lowers.len() > 0) {
                    lemma_class_run_end_bounds(s, i + 1);
                    assert(false);
                }
                assert(scan(s, i, st) == decide(s, i, dot_step(st)));
                assert(scan(t, i, st) == finish(t, i, st, None));
                assert(t.subrange(0, i) =~= s.subrange(0, take));
            }
        }
    } else {
        let c = s[i];
        assert(t[i] == c);
        if is_alpha_char(c) {
            lemma_scan_prefix_agree(s, i + 1, alpha_step(st, c), take);
        } else if is_digit_char(c) {
            if st.buf.len() == 0 {
                lemma_absorb_prefix_agree(s, i, take);
                assert(scan(t, i, st) == (Outcome::Token {
                    ident: IdentModel::Malformed { text: t.subrange(0, take) },
                    take,
                }));
                assert(t.subrange(0, take) =~= s.subrange(0, take));
            } else {
                lemma_scan_prefix_agree(s, i + 1, alpha_step(st, c), take);
            }
        } else if c == '.' {
            if st.buf.len() == 0 || (st.cap && st.lowers.len() > 0) {
                lemma_absorb_prefix_agree(s, i, take);
                assert(t.subrange(0, take) =~= s.subrange(0, take));
            } else {
                lemma_scan_prefix_agree(s, i + 1, dot_step(st), take);
            }
        } else {
            // The terminator ended the token here; with the buffer empty or
            // the capitalization rule broken, the terminator itself joins
            // the text and the rest of the run is absorbed.
            if st.buf.len() == 0 || (st.cap && st.lowers.len() > 0) {
                lemma_absorb_prefix_agree(s, i, take);
                assert(t.subrange(0, take) =~= s.subrange(0, take));
            } else {
                assert(scan(s, i, st) == decide(s, i, dot_step(st)));
                lemma_scan_malformed_shape(s, i, st);
                assert(false);
            }
        }
    }
}

/// When recovery is triggered at index `i` and the run it absorbs ends the
/// input prefix `t`, scanning `t` triggers the identical recovery.
proof fn lemma_absorb_prefix_agree(s: Seq<char>, i: int, take: int)
    requires
        0 <= i < take <= s.len(),
        class_run_end(s, i + 1) == take,
    ensures
        class_run_end(s.subrange(0, take), i + 1) == take,
{
    let t = s.subrange(0, take);
    lemma_class_run_end_bounds(s, i + 1);
    assert forall|j: int| i + 1 <= j < take implies is_ident_char(#[trigger] t[j]) by {
        lemma_class_run_chars(s, i + 1, j);
    }
    lemma_class_run_end_all(t, i + 1);
}

/// Idempotence of malformed recovery: classifying any input that produces
/// a malformed token, and then classifying that token's text alone, gives
/// the identical malformed token, with the whole text consumed and no
/// lookahead character left.
pub proof fn lemma_malformed_idempotent(s: Seq<char>, text: Seq<char>, take: int)
    requires
        classify_spec(s) == (Outcome::Token { ident: IdentModel::Malformed { text }, take }),
    ensures
        classify_spec(text) == (Outcome::Token {
            ident: IdentModel::Malformed { text },
            take: text.len() as int,
        }),
{
    assert(s.len() > 0);
    if is_alpha_char(s[0]) {
        let st1 = alpha_step(init_st(false), s[0]);
        lemma_scan_malformed_shape(s, 1, st1);
        assert(text == s.subrange(0, take));
        lemma_scan_prefix_agree(s, 1, st1, take);
        assert(text.len() == take);
        assert(text[0] == s[0]);
        assert(classify_spec(text) == scan(text, 1, alpha_step(init_st(false), text[0])));
    } else {
        assert(s[0] == '.');
        let st1 = init_st(true);
        lemma_scan_malformed_shape(s, 1, st1);
        assert(text == s.subrange(0, take));
        lemma_scan_prefix_agree(s, 1, st1, take);
        assert(text.len() == take);
        assert(text[0] == '.');
        assert(!is_alpha_char('.'));
        assert(classify_spec(text) == scan(text, 1, st1));
    }
}

} // verus!

