//! The line classifier: a state machine over diff input lines, batching
//! removed/added runs and driving the painter.

use vstd::prelude::*;
use vstd::string::StrSliceExecFns;
use vstd::string::StringExecFns;
use crate::color::Color;
use crate::paint::Config;
use crate::paint::Painter;
use crate::paint::emitted_painted;
use crate::paint::lemma_emitted_painted_nl;
use crate::paint::flush_appended;
use crate::services::find_syntax_by_extension;
use crate::services::strip_ansi;
use crate::services::strip_ansi_codes;
use crate::services::syntax_set_has_extension;
use crate::textutil::concat_all;
use crate::textutil::first_char;
use crate::textutil::has_prefix;
use crate::textutil::is_prefix_of;
use crate::textutil::lemma_concat_all_append;
use crate::textutil::lemma_concat_all_single;
use crate::textutil::lemma_join_nl;
use crate::textutil::lemma_join_nonempty;
use crate::textutil::lemma_nl_count_add;
use crate::textutil::lemma_nl_count_newline;
use crate::textutil::lemma_nl_count_none;
use crate::textutil::nl_count;
use crate::textutil::no_nl;
use crate::textutil::spec_join;

verus! {

/// Where in a diff the classifier currently stands.
#[derive(Clone, Copy, PartialEq, Eq, Structural, Debug)]
pub enum State {
    Commit,  // In commit metadata section
    DiffMeta,  // In diff metadata section, between commit metadata and first hunk
    HunkMeta,  // In hunk metadata line
    HunkZero,  // In hunk; unchanged line
    HunkMinus,  // In hunk; removed line
    HunkPlus,  // In hunk; added line
    Unknown,
}

/// Position of the last `.` in `l`, or `-1` if there is none.
pub open spec fn last_dot(l: Seq<char>) -> int
    decreases l.len(),
{
    if l.len() == 0 {
        -1
    } else if l.last() == '.' {
        l.len() - 1
    } else {
        last_dot(l.drop_last())
    }
}

/// The file extension a diff-start line carries: what follows its last `.`.
pub open spec fn spec_ext_of(l: Seq<char>) -> Option<Seq<char>> {
    if last_dot(l) >= 0 {
        Some(l.skip(last_dot(l) + 1))
    } else {
        None
    }
}

proof fn lemma_last_dot_at(l: Seq<char>, k: int)
    requires
        0 <= k < l.len(),
        l[k] == '.',
        forall|j: int| k < j < l.len() ==> l[j] != '.',
    ensures
        last_dot(l) == k,
    decreases l.len(),
{
    if k < l.len() - 1 {
        assert(l.last() != '.');
        lemma_last_dot_at(l.drop_last(), k);
    }
}

proof fn lemma_last_dot_none(l: Seq<char>)
    requires
        forall|j: int| 0 <= j < l.len() ==> l[j] != '.',
    ensures
        last_dot(l) == -1,
    decreases l.len(),
{
    if l.len() > 0 {
        lemma_last_dot_none(l.drop_last());
    }
}

/// Extract the extension from a diff-start line: the text after the last
/// dot. The filter only needs a key to look a syntax up by.
pub fn get_file_extension_from_diff_line<'a>(line: &'a str) -> (r: Option<&'a str>)
    ensures
        match r {
            Some(e) => spec_ext_of(line@) == Some(e@),
            None => spec_ext_of(line@) is None,
        },
{
    let n = line.unicode_len();
    let mut i: usize = n;
    while i > 0
        invariant
            i <= n,
            n == line@.len(),
            forall|j: int| i <= j < n ==> line@[j] != '.',
        decreases i,
    {
        if line.get_char(i - 1) == '.' {
            proof {
                lemma_last_dot_at(line@, i - 1);
                assert(line@.skip(i as int) =~= line@.subrange(i as int, n as int));
            }
            let ext = line.substring_char(i, n);
            return Some(ext);
        }
        i -= 1;
    }
    proof {
        lemma_last_dot_none(line@);
    }
    None
}

/// What one consumed line makes the filter write, described abstractly:
/// either a line passed through verbatim, or a painted text block.
pub enum Emit {
    Raw { line: Seq<char> },
    Painted { text: Seq<char>, bg: Option<Color>, hl: bool },
}

/// `chunk` is the exact byte sequence a given emit appends to the sink.
pub open spec fn renders(e: Emit, chunk: Seq<char>) -> bool {
    match e {
        Emit::Raw { line } => chunk == line + "\n"@,
        Emit::Painted { text, bg, hl } => emitted_painted(text, bg, hl, chunk),
    }
}

pub open spec fn chunks_render(es: Seq<Emit>, cs: Seq<Seq<char>>) -> bool {
    cs.len() == es.len() && forall|i: int| 0 <= i < es.len() ==> renders(es[i], cs[i])
}

proof fn lemma_chunks_render_app(e1: Seq<Emit>, c1: Seq<Seq<char>>, e2: Seq<Emit>, c2: Seq<
    Seq<char>,
>)
    requires
        chunks_render(e1, c1),
        chunks_render(e2, c2),
    ensures
        chunks_render(e1 + e2, c1 + c2),
{
    assert forall|i: int| 0 <= i < (e1 + e2).len() implies renders((e1 + e2)[i], (c1 + c2)[i]) by {
        if i < e1.len() {
            assert(renders(e1[i], c1[i]));
        } else {
            assert(renders(e2[i - e1.len()], c2[i - e1.len()]));
        }
    }
}

/// The classifier's abstract state: classification state, the two pending
/// buffers (stripped lines, input order), and whether a syntax is active.
pub struct MState {
    pub state: State,
    pub minus: Seq<Seq<char>>,
    pub plus: Seq<Seq<char>>,
    pub has_syntax: bool,
}

pub open spec fn init_mstate() -> MState {
    MState { state: State::Unknown, minus: Seq::empty(), plus: Seq::empty(), has_syntax: false }
}

/// What a flush writes: nothing when both buffers are empty, else the
/// removed block then the added block, each painted with its own tint.
pub open spec fn flush_emits<'a>(cfg: Config<'a>, m: MState) -> Seq<Emit> {
    if m.minus.len() == 0 && m.plus.len() == 0 {
        Seq::empty()
    } else {
        seq![
            Emit::Painted {
                text: spec_join(m.minus),
                bg: Some(cfg.minus_color),
                hl: cfg.highlight_removed,
            },
            Emit::Painted { text: spec_join(m.plus), bg: Some(cfg.plus_color), hl: true },
        ]
    }
}

proof fn lemma_flush_to_chunks<'a>(cfg: Config<'a>, m: MState, appended: Seq<char>)
    requires
        flush_appended(cfg, m.minus, m.plus, appended),
    ensures
        exists|cs: Seq<Seq<char>>|
            chunks_render(flush_emits(cfg, m), cs) && appended == concat_all(cs),
{
    if m.minus.len() == 0 && m.plus.len() == 0 {
        let cs = Seq::<Seq<char>>::empty();
        assert(chunks_render(flush_emits(cfg, m), cs) && appended == concat_all(cs));
    } else {
        let (c1, c2) = choose|c1: Seq<char>, c2: Seq<char>|
            emitted_painted(spec_join(m.minus), Some(cfg.minus_color), cfg.highlight_removed, c1)
                && emitted_painted(spec_join(m.plus), Some(cfg.plus_color), true, c2) && appended
                == c1 + c2;
        let cs = seq![c1, c2];
        assert(cs =~= seq![c1] + seq![c2]);
        lemma_concat_all_append(seq![c1], seq![c2]);
        lemma_concat_all_single(c1);
        lemma_concat_all_single(c2);
        assert(concat_all(cs) == c1 + c2);
        assert(chunks_render(flush_emits(cfg, m), cs) && appended == concat_all(cs));
    }
}

pub open spec fn in_hunk(st: State) -> bool {
    st == State::HunkMeta || st == State::HunkZero || st == State::HunkMinus || st
        == State::HunkPlus
}

/// One transition of the classifier on the raw line `raw`, yielding the next
/// abstract state and the emits the line causes. Classification reads the
/// stripped copy; pass-through emits carry the raw line.
pub open spec fn step<'a>(cfg: Config<'a>, m: MState, raw: Seq<char>) -> (MState, Seq<Emit>) {
    let l = strip_ansi(raw);
    if is_prefix_of("diff --"@, l) {
        let hs = match spec_ext_of(l) {
            Some(e) => syntax_set_has_extension(*cfg.syntax_set, e),
            None => false,
        };
        (
            MState { state: State::DiffMeta, minus: Seq::empty(), plus: Seq::empty(), has_syntax: hs },
            flush_emits(cfg, m) + seq![Emit::Raw { line: raw }],
        )
    } else if is_prefix_of("commit"@, l) {
        (
            MState {
                state: State::Commit,
                minus: Seq::empty(),
                plus: Seq::empty(),
                has_syntax: m.has_syntax,
            },
            flush_emits(cfg, m) + seq![Emit::Raw { line: raw }],
        )
    } else if is_prefix_of("@@"@, l) {
        (
            MState {
                state: State::HunkMeta,
                minus: m.minus,
                plus: m.plus,
                has_syntax: m.has_syntax,
            },
            seq![Emit::Raw { line: raw }],
        )
    } else if in_hunk(m.state) && m.has_syntax {
        if l.len() > 0 && l[0] == '-' {
            if m.state == State::HunkPlus {
                (
                    MState {
                        state: State::HunkMinus,
                        minus: seq![l],
                        plus: Seq::empty(),
                        has_syntax: m.has_syntax,
                    },
                    flush_emits(cfg, m),
                )
            } else {
                (
                    MState {
                        state: State::HunkMinus,
                        minus: m.minus.push(l),
                        plus: m.plus,
                        has_syntax: m.has_syntax,
                    },
                    Seq::empty(),
                )
            }
        } else if l.len() > 0 && l[0] == '+' {
            (
                MState {
                    state: State::HunkPlus,
                    minus: m.minus,
                    plus: m.plus.push(l),
                    has_syntax: m.has_syntax,
                },
                Seq::empty(),
            )
        } else {
            (
                MState {
                    state: State::HunkZero,
                    minus: Seq::empty(),
                    plus: Seq::empty(),
                    has_syntax: m.has_syntax,
                },
                flush_emits(cfg, m) + seq![Emit::Painted { text: l, bg: None, hl: true }],
            )
        }
    } else {
        (m, seq![Emit::Raw { line: raw }])
    }
}

/// The abstract state after consuming `lines`.
pub open spec fn run_state<'a>(cfg: Config<'a>, lines: Seq<Seq<char>>) -> MState
    decreases lines.len(),
{
    if lines.len() == 0 {
        init_mstate()
    } else {
        step(cfg, run_state(cfg, lines.drop_last()), lines.last()).0
    }
}

/// All emits caused while consuming `lines` (without the final flush).
pub open spec fn run_emits<'a>(cfg: Config<'a>, lines: Seq<Seq<char>>) -> Seq<Emit>
    decreases lines.len(),
{
    if lines.len() == 0 {
        Seq::empty()
    } else {
        run_emits(cfg, lines.drop_last()) + step(
            cfg,
            run_state(cfg, lines.drop_last()),
            lines.last(),
        ).1
    }
}

/// Everything one run over `lines` emits, final flush included.
pub open spec fn delta_emits<'a>(cfg: Config<'a>, lines: Seq<Seq<char>>) -> Seq<Emit> {
    run_emits(cfg, lines) + flush_emits(cfg, run_state(cfg, lines))
}

/// Run the filter over `lines` and return everything it writes to the sink.
#[verifier::rlimit(100)]
pub fn delta<'a>(lines: &Vec<String>, config: &'a Config<'a>) -> (out: String)
    ensures
        exists|cs: Seq<Seq<char>>|
            chunks_render(delta_emits(*config, lines.deep_view()), cs) && out@ == concat_all(cs),
{
    let mut painter = Painter {
        minus_lines: Vec::new(),
        plus_lines: Vec::new(),
        syntax: None,
        config,
        output_buffer: String::new(),
        output: String::new(),
    };
    let mut state = State::Unknown;
    let ghost dv = lines.deep_view();
    let ghost mut gm = init_mstate();
    let ghost mut cs: Seq<Seq<char>> = Seq::empty();
    let mut i: usize = 0;
    proof {
        assert(dv.take(0) =~= Seq::<Seq<char>>::empty());
        assert(painter.minus_lines.deep_view() =~= Seq::<Seq<char>>::empty());
        assert(painter.plus_lines.deep_view() =~= Seq::<Seq<char>>::empty());
        assert(painter.output@ =~= concat_all(cs));
    }
    while i < lines.len()
        invariant
            i <= lines.len(),
            dv == lines.deep_view(),
            painter.config == config,
            painter.minus_lines.deep_view() == gm.minus,
            painter.plus_lines.deep_view() == gm.plus,
            painter.syntax.is_some() == gm.has_syntax,
            state == gm.state,
            painter.syntax_ok(),
            gm == run_state(*config, dv.take(i as int)),
            chunks_render(run_emits(*config, dv.take(i as int)), cs),
            painter.output@ == concat_all(cs),
            painter.output_buffer@ == Seq::<char>::empty(),
            gm.minus.len() > 0 || gm.plus.len() > 0 ==> gm.has_syntax,
        decreases lines.len() - i,
    {
        let raw = &lines[i];
        let stripped = strip_ansi_codes(raw.as_str());
        let ghost l = strip_ansi(dv[i as int]);
        let ghost gm0 = gm;
        let ghost cs0 = cs;
        let ghost stp = step(*config, gm0, dv[i as int]);
        proof {
            assert(dv[i as int] == lines@[i as int]@);
            assert(stripped@ == l);
        }
        if has_prefix(stripped.as_str(), "diff --") {
            painter.paint_and_emit_buffered_lines();
            proof {
                let appended = choose|a: Seq<char>|
                    flush_appended(*config, gm0.minus, gm0.plus, a) && painter.output@
                        == concat_all(cs0) + a;
                lemma_flush_to_chunks(*config, gm0, appended);
                let fcs = choose|f: Seq<Seq<char>>|
                    chunks_render(flush_emits(*config, gm0), f) && appended == concat_all(f);
                cs = cs0 + fcs;
                lemma_chunks_render_app(
                    run_emits(*config, dv.take(i as int)),
                    cs0,
                    flush_emits(*config, gm0),
                    fcs,
                );
                lemma_concat_all_append(cs0, fcs);
            }
            state = State::DiffMeta;
            painter.syntax =
            match get_file_extension_from_diff_line(stripped.as_str()) {
                Some(extension) => find_syntax_by_extension(config.syntax_set, extension),
                None => None,
            };
            let ghost out1 = painter.output@;
            painter.output.append(raw.as_str());
            painter.output.append("\n");
            proof {
                let rchunk = dv[i as int] + "\n"@;
                assert(painter.output@ =~= out1 + rchunk);
                gm = stp.0;
                let pcs = cs;
                cs = cs.push(rchunk);
                assert(cs =~= pcs + seq![rchunk]);
                assert(renders(Emit::Raw { line: dv[i as int] }, rchunk));
                assert(chunks_render(seq![Emit::Raw { line: dv[i as int] }], seq![rchunk]));
                lemma_chunks_render_app(
                    run_emits(*config, dv.take(i as int)) + flush_emits(*config, gm0),
                    pcs,
                    seq![Emit::Raw { line: dv[i as int] }],
                    seq![rchunk],
                );
                lemma_concat_all_append(pcs, seq![rchunk]);
                lemma_concat_all_single(rchunk);
                assert(painter.output@ =~= concat_all(cs));
                assert(stp.1 =~= flush_emits(*config, gm0) + seq![Emit::Raw { line: dv[i as int] }]);
                assert(run_emits(*config, dv.take(i as int)) + (flush_emits(*config, gm0) + seq![
                    Emit::Raw { line: dv[i as int] },
                ]) =~= (run_emits(*config, dv.take(i as int)) + flush_emits(*config, gm0)) + seq![
                    Emit::Raw { line: dv[i as int] },
                ]);
                assert(painter.minus_lines.deep_view() =~= Seq::<Seq<char>>::empty());
                assert(painter.plus_lines.deep_view() =~= Seq::<Seq<char>>::empty());
            }
        } else if has_prefix(stripped.as_str(), "commit") {
            painter.paint_and_emit_buffered_lines();
            proof {
                let appended = choose|a: Seq<char>|
                    flush_appended(*config, gm0.minus, gm0.plus, a) && painter.output@
                        == concat_all(cs0) + a;
                lemma_flush_to_chunks(*config, gm0, appended);
                let fcs = choose|f: Seq<Seq<char>>|
                    chunks_render(flush_emits(*config, gm0), f) && appended == concat_all(f);
                cs = cs0 + fcs;
                lemma_chunks_render_app(
                    run_emits(*config, dv.take(i as int)),
                    cs0,
                    flush_emits(*config, gm0),
                    fcs,
                );
                lemma_concat_all_append(cs0, fcs);
            }
            state = State::Commit;
            let ghost out1 = painter.output@;
            painter.output.append(raw.as_str());
            painter.output.append("\n");
            proof {
                let rchunk = dv[i as int] + "\n"@;
                assert(painter.output@ =~= out1 + rchunk);
                gm = stp.0;
                let pcs = cs;
                cs = cs.push(rchunk);
                assert(cs =~= pcs + seq![rchunk]);
                assert(renders(Emit::Raw { line: dv[i as int] }, rchunk));
                assert(chunks_render(seq![Emit::Raw { line: dv[i as int] }], seq![rchunk]));
                lemma_chunks_render_app(
                    run_emits(*config, dv.take(i as int)) + flush_emits(*config, gm0),
                    pcs,
                    seq![Emit::Raw { line: dv[i as int] }],
                    seq![rchunk],
                );
                lemma_concat_all_append(pcs, seq![rchunk]);
                lemma_concat_all_single(rchunk);
                assert(painter.output@ =~= concat_all(cs));
                assert(stp.1 =~= flush_emits(*config, gm0) + seq![Emit::Raw { line: dv[i as int] }]);
                assert(run_emits(*config, dv.take(i as int)) + (flush_emits(*config, gm0) + seq![
                    Emit::Raw { line: dv[i as int] },
                ]) =~= (run_emits(*config, dv.take(i as int)) + flush_emits(*config, gm0)) + seq![
                    Emit::Raw { line: dv[i as int] },
                ]);
                assert(painter.minus_lines.deep_view() =~= Seq::<Seq<char>>::empty());
                assert(painter.plus_lines.deep_view() =~= Seq::<Seq<char>>::empty());
            }
        } else if has_prefix(stripped.as_str(), "@@") {
            state = State::HunkMeta;
            let ghost out1 = painter.output@;
            painter.output.append(raw.as_str());
            painter.output.append("\n");
            proof {
                let rchunk = dv[i as int] + "\n"@;
                assert(painter.output@ =~= out1 + rchunk);
                gm = stp.0;
                let pcs = cs;
                cs = cs.push(rchunk);
                assert(cs =~= pcs + seq![rchunk]);
                assert(renders(Emit::Raw { line: dv[i as int] }, rchunk));
                assert(chunks_render(seq![Emit::Raw { line: dv[i as int] }], seq![rchunk]));
                lemma_chunks_render_app(
                    run_emits(*config, dv.take(i as int)),
                    pcs,
                    seq![Emit::Raw { line: dv[i as int] }],
                    seq![rchunk],
                );
                lemma_concat_all_append(pcs, seq![rchunk]);
                lemma_concat_all_single(rchunk);
                assert(painter.output@ =~= concat_all(cs));
            }
        } else {
            let hunk_now = (state == State::HunkMeta || state == State::HunkZero || state
                == State::HunkMinus || state == State::HunkPlus) && painter.syntax.is_some();
            if hunk_now {
                let fc = first_char(stripped.as_str());
                match fc {
                    Some(c) if c == '-' => {
                        if state == State::HunkPlus {
                            painter.paint_and_emit_buffered_lines();
                            proof {
                                let appended = choose|a: Seq<char>|
                                    flush_appended(*config, gm0.minus, gm0.plus, a)
                                        && painter.output@ == concat_all(cs0) + a;
                                lemma_flush_to_chunks(*config, gm0, appended);
                                let fcs = choose|f: Seq<Seq<char>>|
                                    chunks_render(flush_emits(*config, gm0), f) && appended
                                        == concat_all(f);
                                cs = cs0 + fcs;
                                lemma_chunks_render_app(
                                    run_emits(*config, dv.take(i as int)),
                                    cs0,
                                    flush_emits(*config, gm0),
                                    fcs,
                                );
                                lemma_concat_all_append(cs0, fcs);
                            }
                        }
                        let ghost pre_minus = painter.minus_lines.deep_view();
                        painter.minus_lines.push(stripped);
                        state = State::HunkMinus;
                        proof {
                            gm = stp.0;
                            assert(painter.minus_lines.deep_view() =~= pre_minus.push(l));
                            if gm0.state == State::HunkPlus {
                                assert(pre_minus =~= Seq::<Seq<char>>::empty());
                                assert(pre_minus.push(l) =~= seq![l]);
                                assert(painter.plus_lines.deep_view() =~= Seq::<Seq<char>>::empty());
                            }
                        }
                    },
                    Some(c) if c == '+' => {
                        let ghost pre_plus = painter.plus_lines.deep_view();
                        painter.plus_lines.push(stripped);
                        state = State::HunkPlus;
                        proof {
                            gm = stp.0;
                            assert(painter.plus_lines.deep_view() =~= pre_plus.push(l));
                        }
                    },
                    _ => {
                        painter.paint_and_emit_buffered_lines();
                        proof {
                            let appended = choose|a: Seq<char>|
                                flush_appended(*config, gm0.minus, gm0.plus, a) && painter.output@
                                    == concat_all(cs0) + a;
                            lemma_flush_to_chunks(*config, gm0, appended);
                            let fcs = choose|f: Seq<Seq<char>>|
                                chunks_render(flush_emits(*config, gm0), f) && appended
                                    == concat_all(f);
                            cs = cs0 + fcs;
                            lemma_chunks_render_app(
                                run_emits(*config, dv.take(i as int)),
                                cs0,
                                flush_emits(*config, gm0),
                                fcs,
                            );
                            lemma_concat_all_append(cs0, fcs);
                        }
                        state = State::HunkZero;
                        let ghost out1 = painter.output@;
                        painter.paint_and_emit_text(stripped, None, true);
                        proof {
                            gm = stp.0;
                            let zchunk = choose|z: Seq<char>|
                                emitted_painted(l, None, true, z) && painter.output@ == out1 + z;
                            let pcs = cs;
                            cs = cs.push(zchunk);
                            assert(cs =~= pcs + seq![zchunk]);
                            let ze = Emit::Painted { text: l, bg: None, hl: true };
                            assert(renders(ze, zchunk));
                            assert(chunks_render(seq![ze], seq![zchunk]));
                            lemma_chunks_render_app(
                                run_emits(*config, dv.take(i as int)) + flush_emits(*config, gm0),
                                pcs,
                                seq![ze],
                                seq![zchunk],
                            );
                            lemma_concat_all_append(pcs, seq![zchunk]);
                            lemma_concat_all_single(zchunk);
                            assert(painter.output@ =~= concat_all(cs));
                            assert(stp.1 =~= flush_emits(*config, gm0) + seq![ze]);
                            assert(run_emits(*config, dv.take(i as int)) + (flush_emits(
                                *config,
                                gm0,
                            ) + seq![ze]) =~= (run_emits(*config, dv.take(i as int)) + flush_emits(
                                *config,
                                gm0,
                            )) + seq![ze]);
                            assert(painter.minus_lines.deep_view() =~= Seq::<Seq<char>>::empty());
                            assert(painter.plus_lines.deep_view() =~= Seq::<Seq<char>>::empty());
                        }
                    },
                }
            } else {
                let ghost out1 = painter.output@;
                painter.output.append(raw.as_str());
                painter.output.append("\n");
                proof {
                    let rchunk = dv[i as int] + "\n"@;
                    assert(painter.output@ =~= out1 + rchunk);
                    gm = stp.0;
                    let pcs = cs;
                    cs = cs.push(rchunk);
                    assert(cs =~= pcs + seq![rchunk]);
                    assert(renders(Emit::Raw { line: dv[i as int] }, rchunk));
                    assert(chunks_render(seq![Emit::Raw { line: dv[i as int] }], seq![rchunk]));
                    lemma_chunks_render_app(
                        run_emits(*config, dv.take(i as int)),
                        pcs,
                        seq![Emit::Raw { line: dv[i as int] }],
                        seq![rchunk],
                    );
                    lemma_concat_all_append(pcs, seq![rchunk]);
                    lemma_concat_all_single(rchunk);
                    assert(painter.output@ =~= concat_all(cs));
                }
            }
        }
        proof {
            assert(dv.take(i + 1).drop_last() =~= dv.take(i as int));
            assert(dv.take(i + 1).last() == dv[i as int]);
            assert(gm == run_state(*config, dv.take(i + 1)));
            assert(chunks_render(run_emits(*config, dv.take(i + 1)), cs));
        }
        i += 1;
    }
    proof {
        assert(dv.take(lines.len() as int) =~= dv);
    }
    painter.paint_and_emit_buffered_lines();
    proof {
        let ghost gmf = run_state(*config, dv);
        let appended = choose|a: Seq<char>|
            flush_appended(*config, gmf.minus, gmf.plus, a) && painter.output@ == concat_all(cs)
                + a;
        lemma_flush_to_chunks(*config, gmf, appended);
        let fcs = choose|f: Seq<Seq<char>>|
            chunks_render(flush_emits(*config, gmf), f) && appended == concat_all(f);
        lemma_chunks_render_app(run_emits(*config, dv), cs, flush_emits(*config, gmf), fcs);
        lemma_concat_all_append(cs, fcs);
        assert(chunks_render(delta_emits(*config, dv), cs + fcs) && painter.output@ == concat_all(
            cs + fcs,
        ));
    }
    painter.output
}


/// Whether `step` consumes the line as hunk content (buffered or painted
/// immediately) rather than re-emitting it through the fallthrough path.
pub open spec fn classifies_hunk_content(m: MState, raw: Seq<char>) -> bool {
    let l = strip_ansi(raw);
    !is_prefix_of("diff --"@, l) && !is_prefix_of("commit"@, l) && !is_prefix_of("@@"@, l)
        && in_hunk(m.state) && m.has_syntax
}

proof fn lemma_prefix_first(p: Seq<char>, l: Seq<char>)
    requires
        is_prefix_of(p, l),
        p.len() > 0,
    ensures
        l.len() > 0 && l[0] == p[0],
{
    assert(l.subrange(0, p.len() as int)[0] == l[0]);
}

/// A line not classified as hunk content is re-emitted verbatim: the last
/// emit of its step carries the original, unstripped line, and whatever
/// renders it is exactly that line plus the terminating newline.
pub proof fn lemma_non_hunk_verbatim<'a>(cfg: Config<'a>, m: MState, raw: Seq<char>, chunk: Seq<char>)
    requires
        !classifies_hunk_content(m, raw),
        renders(step(cfg, m, raw).1.last(), chunk),
    ensures
        step(cfg, m, raw).1.len() >= 1,
        step(cfg, m, raw).1.last() == (Emit::Raw { line: raw }),
        chunk == raw + "\n"@,
{
    let l = strip_ansi(raw);
    let re = Emit::Raw { line: raw };
    if is_prefix_of("diff --"@, l) || is_prefix_of("commit"@, l) {
        assert((flush_emits(cfg, m) + seq![re]).last() == re);
    } else {
        assert(seq![re].last() == re);
    }
}

/// The two blocks of one nonempty batch leave in a single flush event, as
/// adjacent emits: the removed block with the removed tint (highlighted only
/// if configured), then the added block with the added tint.
pub proof fn lemma_flush_unit<'a>(cfg: Config<'a>, m: MState)
    requires
        m.minus.len() > 0 || m.plus.len() > 0,
    ensures
        flush_emits(cfg, m).len() == 2,
        flush_emits(cfg, m)[0] == (Emit::Painted {
            text: spec_join(m.minus),
            bg: Some(cfg.minus_color),
            hl: cfg.highlight_removed,
        }),
        flush_emits(cfg, m)[1] == (Emit::Painted {
            text: spec_join(m.plus),
            bg: Some(cfg.plus_color),
            hl: true,
        }),
{
}

/// An added line right after removed lines joins the pending batch: nothing
/// is emitted, the removed buffer stands, the added buffer grows. Together
/// with `lemma_flush_unit` this is the batching rule: a removed run and the
/// added run that follows it are flushed as one unit.
pub proof fn lemma_minus_then_plus_batched<'a>(cfg: Config<'a>, m: MState, raw: Seq<char>)
    requires
        m.state == State::HunkMinus,
        m.has_syntax,
        strip_ansi(raw).len() > 0,
        strip_ansi(raw)[0] == '+',
    ensures
        step(cfg, m, raw).1 == Seq::<Emit>::empty(),
        step(cfg, m, raw).0.minus == m.minus,
        step(cfg, m, raw).0.plus == m.plus.push(strip_ansi(raw)),
        step(cfg, m, raw).0.state == State::HunkPlus,
{
    let l = strip_ansi(raw);
    reveal_strlit("diff --");
    reveal_strlit("commit");
    reveal_strlit("@@");
    if is_prefix_of("diff --"@, l) {
        lemma_prefix_first("diff --"@, l);
    }
    if is_prefix_of("commit"@, l) {
        lemma_prefix_first("commit"@, l);
    }
    if is_prefix_of("@@"@, l) {
        lemma_prefix_first("@@"@, l);
    }
}

/// A removed line right after an added run forces the pending batch out
/// first: the step emits exactly one flush of the old buffers, and the new
/// removed line starts a fresh batch of its own.
pub proof fn lemma_plus_then_minus_flushes<'a>(cfg: Config<'a>, m: MState, raw: Seq<char>)
    requires
        m.state == State::HunkPlus,
        m.has_syntax,
        strip_ansi(raw).len() > 0,
        strip_ansi(raw)[0] == '-',
    ensures
        step(cfg, m, raw).1 == flush_emits(cfg, m),
        step(cfg, m, raw).0.minus == seq![strip_ansi(raw)],
        step(cfg, m, raw).0.plus == Seq::<Seq<char>>::empty(),
        step(cfg, m, raw).0.state == State::HunkMinus,
{
    let l = strip_ansi(raw);
    reveal_strlit("diff --");
    reveal_strlit("commit");
    reveal_strlit("@@");
    if is_prefix_of("diff --"@, l) {
        lemma_prefix_first("diff --"@, l);
    }
    if is_prefix_of("commit"@, l) {
        lemma_prefix_first("commit"@, l);
    }
    if is_prefix_of("@@"@, l) {
        lemma_prefix_first("@@"@, l);
    }
}

/// An unchanged (context) line is never batched: its step flushes the
/// pending buffers and emits the line itself right away, painted with no
/// background and with highlighting applied, leaving both buffers empty.
pub proof fn lemma_context_immediate<'a>(cfg: Config<'a>, m: MState, raw: Seq<char>)
    requires
        in_hunk(m.state),
        m.has_syntax,
        !is_prefix_of("diff --"@, strip_ansi(raw)),
        !is_prefix_of("commit"@, strip_ansi(raw)),
        !is_prefix_of("@@"@, strip_ansi(raw)),
        strip_ansi(raw).len() > 0 ==> strip_ansi(raw)[0] != '-' && strip_ansi(raw)[0] != '+',
    ensures
        step(cfg, m, raw).1 == flush_emits(cfg, m) + seq![
            (Emit::Painted { text: strip_ansi(raw), bg: None, hl: true }),
        ],
        step(cfg, m, raw).0.minus.len() == 0,
        step(cfg, m, raw).0.plus.len() == 0,
        step(cfg, m, raw).0.state == State::HunkZero,
{
}

/// Newlines one emit writes: its payload's own newlines plus the final one
/// of the emitting write.
pub open spec fn emit_nl(e: Emit) -> int {
    match e {
        Emit::Raw { line } => nl_count(line) + 1,
        Emit::Painted { text, .. } => nl_count(text) + 1,
    }
}

/// A Painted emit with empty text renders as a single blank line: the blank
/// separator a flush writes for an empty half of a batch.
pub open spec fn blank_of(e: Emit) -> int {
    match e {
        Emit::Painted { text, .. } => if text.len() == 0 {
            1int
        } else {
            0int
        },
        _ => 0int,
    }
}

pub open spec fn emits_nl(es: Seq<Emit>) -> int
    decreases es.len(),
{
    if es.len() == 0 {
        0int
    } else {
        emits_nl(es.drop_last()) + emit_nl(es.last())
    }
}

pub open spec fn blank_emits(es: Seq<Emit>) -> int
    decreases es.len(),
{
    if es.len() == 0 {
        0int
    } else {
        blank_emits(es.drop_last()) + blank_of(es.last())
    }
}

proof fn lemma_emits_nl_app(a: Seq<Emit>, b: Seq<Emit>)
    ensures
        emits_nl(a + b) == emits_nl(a) + emits_nl(b),
        blank_emits(a + b) == blank_emits(a) + blank_emits(b),
    decreases b.len(),
{
    if b.len() == 0 {
        assert(a + b =~= a);
    } else {
        lemma_emits_nl_app(a, b.drop_last());
        assert((a + b).drop_last() =~= a + b.drop_last());
        assert((a + b).last() == b.last());
    }
}

proof fn lemma_emits_nl_single(e: Emit)
    ensures
        emits_nl(seq![e]) == emit_nl(e),
        blank_emits(seq![e]) == blank_of(e),
{
    assert(seq![e].drop_last() =~= Seq::<Emit>::empty());
    assert(emits_nl(seq![e].drop_last()) == 0);
    assert(blank_emits(seq![e].drop_last()) == 0);
}

proof fn lemma_renders_nl(e: Emit, c: Seq<char>)
    requires
        renders(e, c),
    ensures
        nl_count(c) == emit_nl(e),
{
    match e {
        Emit::Raw { line } => {
            lemma_nl_count_add(line, "\n"@);
            lemma_nl_count_newline();
        },
        Emit::Painted { text, bg, hl } => {
            lemma_emitted_painted_nl(text, bg, hl, c);
        },
    }
}

proof fn lemma_chunks_nl(es: Seq<Emit>, cs: Seq<Seq<char>>)
    requires
        chunks_render(es, cs),
    ensures
        nl_count(concat_all(cs)) == emits_nl(es),
    decreases es.len(),
{
    if es.len() > 0 {
        assert forall|i: int| 0 <= i < es.drop_last().len() implies renders(
            es.drop_last()[i],
            cs.drop_last()[i],
        ) by {
            assert(renders(es[i], cs[i]));
        }
        lemma_chunks_nl(es.drop_last(), cs.drop_last());
        lemma_nl_count_add(concat_all(cs.drop_last()), cs.last());
        assert(renders(es[es.len() - 1], cs[es.len() - 1]));
        lemma_renders_nl(es.last(), cs.last());
    }
}

/// The pending buffers only ever hold nonempty, newline-free stripped lines.
pub open spec fn buffers_wf(m: MState) -> bool {
    (forall|k: int|
        0 <= k < m.minus.len() ==> no_nl(#[trigger] m.minus[k]) && m.minus[k].len() > 0) && (
    forall|k: int| 0 <= k < m.plus.len() ==> no_nl(#[trigger] m.plus[k]) && m.plus[k].len() > 0)
}

proof fn lemma_flush_nl<'a>(cfg: Config<'a>, m: MState)
    requires
        buffers_wf(m),
    ensures
        emits_nl(flush_emits(cfg, m)) == m.minus.len() + m.plus.len() + blank_emits(
            flush_emits(cfg, m),
        ),
{
    if m.minus.len() == 0 && m.plus.len() == 0 {
    } else {
        let e1 = Emit::Painted {
            text: spec_join(m.minus),
            bg: Some(cfg.minus_color),
            hl: cfg.highlight_removed,
        };
        let e2 = Emit::Painted { text: spec_join(m.plus), bg: Some(cfg.plus_color), hl: true };
        assert(flush_emits(cfg, m) =~= seq![e1] + seq![e2]);
        lemma_emits_nl_app(seq![e1], seq![e2]);
        lemma_emits_nl_single(e1);
        lemma_emits_nl_single(e2);
        lemma_join_nl(m.minus);
        lemma_join_nl(m.plus);
        if m.minus.len() >= 1 {
            lemma_join_nonempty(m.minus);
        }
        if m.plus.len() >= 1 {
            lemma_join_nonempty(m.plus);
        }
    }
}

/// The hypotheses of the line-count law: input lines carry no newline, and
/// no line strips to nothing (a line whose stripped copy is empty would be
/// re-emitted or painted as a blank output line).
pub open spec fn line_conds(lines: Seq<Seq<char>>) -> bool {
    forall|i: int|
        0 <= i < lines.len() ==> no_nl(#[trigger] lines[i]) && no_nl(strip_ansi(lines[i]))
            && strip_ansi(lines[i]).len() > 0
}

proof fn lemma_run_balance<'a>(cfg: Config<'a>, lines: Seq<Seq<char>>)
    requires
        line_conds(lines),
    ensures
        buffers_wf(run_state(cfg, lines)),
        emits_nl(run_emits(cfg, lines)) + run_state(cfg, lines).minus.len() + run_state(
            cfg,
            lines,
        ).plus.len() == lines.len() + blank_emits(run_emits(cfg, lines)),
    decreases lines.len(),
{
    if lines.len() > 0 {
        let pre = lines.drop_last();
        assert(line_conds(pre)) by {
            assert(forall|i: int| 0 <= i < pre.len() ==> pre[i] == lines[i]);
        }
        lemma_run_balance(cfg, pre);
        let m = run_state(cfg, pre);
        let raw = lines.last();
        let l = strip_ansi(raw);
        assert(no_nl(raw) && no_nl(l) && l.len() > 0) by {
            assert(lines[lines.len() - 1] == raw);
        }
        let stp = step(cfg, m, raw);
        lemma_emits_nl_app(run_emits(cfg, pre), stp.1);
        let re = Emit::Raw { line: raw };
        lemma_nl_count_none(raw);
        lemma_nl_count_none(l);
        if is_prefix_of("diff --"@, l) || is_prefix_of("commit"@, l) {
            lemma_flush_nl(cfg, m);
            lemma_emits_nl_app(flush_emits(cfg, m), seq![re]);
            lemma_emits_nl_single(re);
        } else if is_prefix_of("@@"@, l) {
            lemma_emits_nl_single(re);
        } else if in_hunk(m.state) && m.has_syntax {
            if l[0] == '-' && m.state == State::HunkPlus {
                lemma_flush_nl(cfg, m);
                assert(buffers_wf(stp.0));
            } else if l[0] == '-' || l[0] == '+' {
                assert(buffers_wf(stp.0));
            } else {
                lemma_flush_nl(cfg, m);
                let ze = Emit::Painted { text: l, bg: None, hl: true };
                lemma_emits_nl_app(flush_emits(cfg, m), seq![ze]);
                lemma_emits_nl_single(ze);
            }
        } else {
            lemma_emits_nl_single(re);
        }
    }
}

/// Every input line accounts for exactly one newline-terminated output
/// line. The only further output lines are the blank separators written for
/// an empty half of a flushed batch, counted by `blank_emits`; with both
/// halves present on every flush, the output's line count is the input's.
pub proof fn lemma_line_counts<'a>(cfg: Config<'a>, lines: Seq<Seq<char>>, cs: Seq<Seq<char>>)
    requires
        line_conds(lines),
        chunks_render(delta_emits(cfg, lines), cs),
    ensures
        nl_count(concat_all(cs)) == lines.len() + blank_emits(delta_emits(cfg, lines)),
{
    lemma_run_balance(cfg, lines);
    lemma_flush_nl(cfg, run_state(cfg, lines));
    lemma_emits_nl_app(run_emits(cfg, lines), flush_emits(cfg, run_state(cfg, lines)));
    lemma_chunks_nl(delta_emits(cfg, lines), cs);
}

proof fn lemma_passthrough_state<'a>(cfg: Config<'a>, lines: Seq<Seq<char>>)
    requires
        forall|i: int|
            0 <= i < lines.len() ==> !is_prefix_of("diff --"@, strip_ansi(#[trigger] lines[i])),
    ensures
        !run_state(cfg, lines).has_syntax,
        run_state(cfg, lines).minus.len() == 0,
        run_state(cfg, lines).plus.len() == 0,
        run_emits(cfg, lines).len() == lines.len(),
        forall|i: int|
            0 <= i < lines.len() ==> run_emits(cfg, lines)[i] == (Emit::Raw { line: lines[i] }),
    decreases lines.len(),
{
    if lines.len() > 0 {
        let pre = lines.drop_last();
        assert(forall|i: int| 0 <= i < pre.len() ==> pre[i] == lines[i]);
        lemma_passthrough_state(cfg, pre);
        let m = run_state(cfg, pre);
        let raw = lines.last();
        let l = strip_ansi(raw);
        assert(lines[lines.len() - 1] == raw);
        let stp = step(cfg, m, raw);
        assert(flush_emits(cfg, m) =~= Seq::<Emit>::empty());
        assert(stp.1 =~= seq![Emit::Raw { line: raw }]);
        assert(run_emits(cfg, lines) == run_emits(cfg, pre) + stp.1);
    }
}

/// Everything the run writes when no line is a diff-start line: each input
/// line followed by its terminator.
pub open spec fn raw_render(lines: Seq<Seq<char>>) -> Seq<char>
    decreases lines.len(),
{
    if lines.len() == 0 {
        Seq::empty()
    } else {
        raw_render(lines.drop_last()) + lines.last() + "\n"@
    }
}

proof fn lemma_raw_chunks(lines: Seq<Seq<char>>, es: Seq<Emit>, cs: Seq<Seq<char>>)
    requires
        es.len() == lines.len(),
        forall|i: int| 0 <= i < lines.len() ==> es[i] == (Emit::Raw { line: lines[i] }),
        chunks_render(es, cs),
    ensures
        concat_all(cs) == raw_render(lines),
    decreases lines.len(),
{
    if lines.len() > 0 {
        assert(forall|i: int|
            0 <= i < lines.drop_last().len() ==> es.drop_last()[i] == (Emit::Raw {
                line: lines.drop_last()[i],
            }));
        assert forall|i: int| 0 <= i < es.drop_last().len() implies renders(
            es.drop_last()[i],
            cs.drop_last()[i],
        ) by {
            assert(renders(es[i], cs[i]));
        }
        lemma_raw_chunks(lines.drop_last(), es.drop_last(), cs.drop_last());
        assert(renders(es[es.len() - 1], cs[es.len() - 1]));
        assert(cs.last() == lines.last() + "\n"@);
        assert(concat_all(cs.drop_last()) + (lines.last() + "\n"@) =~= raw_render(
            lines.drop_last(),
        ) + lines.last() + "\n"@);
    }
}

/// When no line activates a syntax (no diff-start line does), the filter is
/// the identity up to terminators: nothing is ever batched or painted, and
/// the output is exactly the input lines, each with its newline. Feeding
/// that output's lines back in therefore reproduces it byte for byte; the
/// full round trip through real escape stripping stays with the tests.
pub proof fn lemma_passthrough_output<'a>(cfg: Config<'a>, lines: Seq<Seq<char>>, cs: Seq<Seq<char>>)
    requires
        forall|i: int|
            0 <= i < lines.len() ==> !is_prefix_of("diff --"@, strip_ansi(#[trigger] lines[i])),
        chunks_render(delta_emits(cfg, lines), cs),
    ensures
        concat_all(cs) == raw_render(lines),
{
    lemma_passthrough_state(cfg, lines);
    assert(flush_emits(cfg, run_state(cfg, lines)) =~= Seq::<Emit>::empty());
    assert(delta_emits(cfg, lines) =~= run_emits(cfg, lines));
    lemma_raw_chunks(lines, delta_emits(cfg, lines), cs);
}

} // verus!

