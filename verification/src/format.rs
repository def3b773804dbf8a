//! The error formatter: renders a parsed runtime exception as display
//! text, one line per frame, with every non-native, non-eval frame's
//! position passed through the position resolver. Formatting never fails:
//! a position that cannot be mapped appears as its generated coordinates.

use crate::cache::{lemma_extends_trans, map_extends, resolve_position, resolved, SourceMapCache,
    SourceMapFetcher};
use crate::error_model::{Frame, FrameV, ParsedError, ParsedErrorV};
use crate::source_map::SourceMapV;
use crate::text::{dec_int, i64_to_string};
use vstd::prelude::*;
use vstd::string::StringExecFns;

verus! {

/// The label a frame is rendered under.
pub open spec fn frame_name(f: FrameV) -> Seq<char> {
    match f.function_name {
        Some(n) => n,
        None => "<anonymous>"@,
    }
}

/// The position a frame is rendered with: the reported one for native and
/// eval frames — those are never resolved — and the resolved one otherwise.
pub open spec fn frame_pos(f: FrameV, m: Map<Seq<char>, Option<SourceMapV>>) -> (
    Seq<char>,
    int,
    int,
) {
    if f.is_native || f.is_eval {
        (f.file_name, f.line, f.column)
    } else {
        resolved(m, f.file_name, f.line, f.column)
    }
}

/// The marker appended to a native or eval frame's line.
pub open spec fn frame_tag(f: FrameV) -> Seq<char> {
    if f.is_native {
        " [native]"@
    } else if f.is_eval {
        " [eval]"@
    } else {
        Seq::empty()
    }
}

/// One frame's display line, newline first.
pub open spec fn render_frame(f: FrameV, m: Map<Seq<char>, Option<SourceMapV>>) -> Seq<char> {
    "\n    at "@ + frame_name(f) + " ("@ + frame_pos(f, m).0 + ":"@ + dec_int(frame_pos(f, m).1)
        + ":"@ + dec_int(frame_pos(f, m).2) + ")"@ + frame_tag(f)
}

/// The display lines of a frame sequence, in original stack order.
pub open spec fn render_frames(fs: Seq<FrameV>, m: Map<Seq<char>, Option<SourceMapV>>) -> Seq<
    char,
>
    decreases fs.len(),
{
    if fs.len() == 0 {
        Seq::empty()
    } else {
        render_frames(fs.drop_last(), m).add(render_frame(fs.last(), m))
    }
}

/// The first display line: `kind: message`, or the message alone when no
/// kind is present.
pub open spec fn first_line(e: ParsedErrorV) -> Seq<char> {
    match e.kind {
        Some(k) => k + ": "@ + e.message,
        None => e.message,
    }
}

/// The full display text of an error against given cache contents: first
/// line, frame lines, and the formatted cause chain.
pub open spec fn render_error(e: ParsedErrorV, m: Map<Seq<char>, Option<SourceMapV>>) -> Seq<char>
    decreases e,
{
    first_line(e) + render_frames(e.frames, m) + (match e.cause {
        None => Seq::<char>::empty(),
        Some(c) => "\nCaused by: "@ + render_error(*c, m),
    })
}

/// Whether formatting `e` consults the cache under key `k`: some frame of
/// the error or of a cause is neither native nor eval and reports that
/// generated file.
pub open spec fn needs_file(e: ParsedErrorV, k: Seq<char>) -> bool
    decreases e,
{
    (exists|i: int|
        0 <= i < e.frames.len() && !((#[trigger] e.frames[i]).is_native || e.frames[i].is_eval)
            && e.frames[i].file_name == k) || (match e.cause {
        Some(c) => needs_file(*c, k),
        None => false,
    })
}

proof fn lemma_render_frames_stable(
    fs: Seq<FrameV>,
    m1: Map<Seq<char>, Option<SourceMapV>>,
    m2: Map<Seq<char>, Option<SourceMapV>>,
)
    requires
        map_extends(m1, m2),
        forall|i: int|
            0 <= i < fs.len() && !((#[trigger] fs[i]).is_native || fs[i].is_eval)
                ==> m1.contains_key(fs[i].file_name),
    ensures
        render_frames(fs, m2) == render_frames(fs, m1),
    decreases fs.len(),
{
    if fs.len() > 0 {
        assert forall|i: int|
            0 <= i < fs.drop_last().len() && !((#[trigger] fs.drop_last()[i]).is_native
                || fs.drop_last()[i].is_eval) implies m1.contains_key(
            fs.drop_last()[i].file_name,
        ) by {
            assert(fs.drop_last()[i] == fs[i]);
        }
        lemma_render_frames_stable(fs.drop_last(), m1, m2);
        assert(render_frame(fs.last(), m2) == render_frame(fs.last(), m1));
    }
}

/// Once the cache holds an entry for every file an error needs, its
/// rendering no longer depends on how the cache grows further.
pub proof fn lemma_render_error_stable(
    e: ParsedErrorV,
    m1: Map<Seq<char>, Option<SourceMapV>>,
    m2: Map<Seq<char>, Option<SourceMapV>>,
)
    requires
        map_extends(m1, m2),
        forall|k: Seq<char>| needs_file(e, k) ==> m1.contains_key(k),
    ensures
        render_error(e, m2) == render_error(e, m1),
    decreases e,
{
    assert forall|i: int|
        0 <= i < e.frames.len() && !((#[trigger] e.frames[i]).is_native || e.frames[i].is_eval)
            implies m1.contains_key(e.frames[i].file_name) by {
        assert(needs_file(e, e.frames[i].file_name));
    }
    lemma_render_frames_stable(e.frames, m1, m2);
    match e.cause {
        Some(c) => {
            assert forall|k: Seq<char>| needs_file(*c, k) implies m1.contains_key(k) by {
                assert(needs_file(e, k));
            }
            lemma_render_error_stable(*c, m1, m2);
        },
        None => {},
    }
}

/// Formatting is idempotent in its formatting step: after one formatting
/// pass has populated the cache with every file the error needs, a second
/// pass over the same structure adds nothing to the cache and yields
/// byte-identical output.
pub proof fn lemma_format_idempotent(
    e: ParsedErrorV,
    m1: Map<Seq<char>, Option<SourceMapV>>,
    m2: Map<Seq<char>, Option<SourceMapV>>,
)
    requires
        map_extends(m1, m2),
        forall|k: Seq<char>| m2.contains_key(k) ==> m1.contains_key(k) || needs_file(e, k),
        forall|k: Seq<char>| needs_file(e, k) ==> m1.contains_key(k),
    ensures
        m2 == m1,
        render_error(e, m2) == render_error(e, m1),
{
    assert forall|k: Seq<char>| m2.contains_key(k) implies m1.contains_key(k) by {
        assert(m1.contains_key(k) || needs_file(e, k));
    }
    assert(m2 =~= m1);
}

/// Renders one frame's display line, resolving its position unless the
/// frame is native or eval.
#[verifier::loop_isolation(false)]
#[verifier::rlimit(50)]
fn frame_line<F: SourceMapFetcher>(cache: &mut SourceMapCache, fetcher: &mut F, f: &Frame) -> (r:
    String)
    requires
        old(cache).wf(),
    ensures
        final(cache).wf(),
        map_extends(old(cache)@, final(cache)@),
        forall|k: Seq<char>|
            final(cache)@.contains_key(k) ==> old(cache)@.contains_key(k) || (!(f@.is_native
                || f@.is_eval) && f@.file_name == k),
        !(f@.is_native || f@.is_eval) ==> final(cache)@.contains_key(f@.file_name),
        r@ == render_frame(f@, final(cache)@),
{
    let pf: String;
    let pl: i64;
    let pc: i64;
    if f.is_native || f.is_eval {
        pf = f.file_name.clone();
        pl = f.line;
        pc = f.column;
    } else {
        let t = resolve_position(cache, fetcher, &f.file_name, f.line, f.column);
        pf = t.0;
        pl = t.1;
        pc = t.2;
    }
    proof {
        assert((pf@, pl as int, pc as int) == frame_pos(f@, cache@));
    }
    let mut line = String::new();
    line.append("\n    at ");
    match &f.function_name {
        Some(n) => line.append(n.as_str()),
        None => line.append("<anonymous>"),
    }
    line.append(" (");
    line.append(pf.as_str());
    line.append(":");
    let ls = i64_to_string(pl);
    line.append(ls.as_str());
    line.append(":");
    let cs = i64_to_string(pc);
    line.append(cs.as_str());
    line.append(")");
    if f.is_native {
        line.append(" [native]");
    } else if f.is_eval {
        line.append(" [eval]");
    }
    proof {
        assert(line@ =~= render_frame(f@, cache@));
    }
    line
}

/// Renders a parsed error, resolving each frame's position on the way and
/// caching every map the frames lead to. The result is exactly the
/// rendering of the error against the cache as this call leaves it.
#[verifier::loop_isolation(false)]
#[verifier::rlimit(50)]
pub fn format_error<F: SourceMapFetcher>(
    cache: &mut SourceMapCache,
    fetcher: &mut F,
    err: &ParsedError,
) -> (r: String)
    requires
        old(cache).wf(),
    ensures
        final(cache).wf(),
        map_extends(old(cache)@, final(cache)@),
        forall|k: Seq<char>|
            final(cache)@.contains_key(k) ==> old(cache)@.contains_key(k) || needs_file(err@, k),
        forall|k: Seq<char>| needs_file(err@, k) ==> final(cache)@.contains_key(k),
        r@ == render_error(err@, final(cache)@),
    decreases err,
{
    let mut out: String = match &err.kind {
        Some(k) => {
            let mut s = k.clone();
            s.append(": ");
            s.append(err.message.as_str());
            s
        },
        None => err.message.clone(),
    };
    proof {
        assert(out@ == first_line(err@));
    }
    let mut i: usize = 0;
    while i < err.frames.len()
        invariant
            0 <= i <= err.frames@.len(),
            cache.wf(),
            map_extends(old(cache)@, cache@),
            forall|k: Seq<char>|
                cache@.contains_key(k) ==> old(cache)@.contains_key(k) || needs_file(err@, k),
            forall|j: int|
                0 <= j < i as int && !((#[trigger] err@.frames[j]).is_native
                    || err@.frames[j].is_eval) ==> cache@.contains_key(err@.frames[j].file_name),
            out@ == first_line(err@) + render_frames(err@.frames.subrange(0, i as int), cache@),
        decreases err.frames@.len() - i,
    {
        let ghost mpre = cache@;
        let f = &err.frames[i];
        proof {
            assert(f@ == err@.frames[i as int]);
        }
        let line = frame_line(cache, fetcher, f);
        out.append(line.as_str());
        proof {
            let ghost sub = err@.frames.subrange(0, i as int);
            assert forall|j: int|
                0 <= j < sub.len() && !((#[trigger] sub[j]).is_native || sub[j].is_eval)
                    implies mpre.contains_key(sub[j].file_name) by {
                assert(sub[j] == err@.frames[j]);
            }
            lemma_render_frames_stable(sub, mpre, cache@);
            assert(err@.frames.subrange(0, i + 1).drop_last() =~= sub);
            assert(err@.frames.subrange(0, i + 1).last() == err@.frames[i as int]);
            assert(out@ =~= first_line(err@) + render_frames(
                err@.frames.subrange(0, i + 1),
                cache@,
            ));
            lemma_extends_trans(old(cache)@, mpre, cache@);
            assert forall|k: Seq<char>| cache@.contains_key(k) implies old(cache)@.contains_key(k)
                || needs_file(err@, k) by {
                assert(mpre.contains_key(k) || (!(f@.is_native || f@.is_eval) && f@.file_name
                    == k));
                if !mpre.contains_key(k) {
                    assert(err@.frames[i as int].file_name == k && !(err@.frames[
                        i as int].is_native || err@.frames[i as int].is_eval));
                    assert(needs_file(err@, k));
                }
            }
            assert forall|j: int|
                0 <= j < i + 1 && !((#[trigger] err@.frames[j]).is_native
                    || err@.frames[j].is_eval) implies cache@.contains_key(
                err@.frames[j].file_name,
            ) by {
                if j < i as int {
                    assert(mpre.contains_key(err@.frames[j].file_name));
                }
            }
        }
        i = i + 1;
    }
    proof {
        assert(err@.frames.subrange(0, i as int) =~= err@.frames);
    }
    match &err.cause {
        None => {
            proof {
                assert(render_error(err@, cache@) =~= first_line(err@) + render_frames(
                    err@.frames,
                    cache@,
                ));
                assert forall|k: Seq<char>| needs_file(err@, k) implies cache@.contains_key(
                    k,
                ) by {
                    let wi = choose|i: int|
                        0 <= i < err@.frames.len() && !((#[trigger] err@.frames[i]).is_native
                            || err@.frames[i].is_eval) && err@.frames[i].file_name == k;
                }
            }
            out
        },
        Some(b) => {
            out.append("\nCaused by: ");
            let ghost mmid = cache@;
            let inner = format_error(cache, fetcher, &**b);
            out.append(inner.as_str());
            proof {
                assert forall|j: int|
                    0 <= j < err@.frames.len() && !((#[trigger] err@.frames[j]).is_native
                        || err@.frames[j].is_eval) implies mmid.contains_key(
                    err@.frames[j].file_name,
                ) by {}
                lemma_render_frames_stable(err@.frames, mmid, cache@);
                assert(err@.cause == Some(Box::new((**b)@)));
                assert(inner@ == render_error((**b)@, cache@));
                assert(render_error(err@, cache@) == first_line(err@) + render_frames(
                    err@.frames,
                    cache@,
                ) + ("\nCaused by: "@ + inner@));
                assert(out@ =~= render_error(err@, cache@));
                assert forall|k: Seq<char>| needs_file(err@, k) implies cache@.contains_key(
                    k,
                ) by {
                    if !needs_file((**b)@, k) {
                        let wi = choose|i: int|
                            0 <= i < err@.frames.len() && !((#[trigger] err@.frames[i]).is_native
                                || err@.frames[i].is_eval) && err@.frames[i].file_name == k;
                        assert(mmid.contains_key(k));
                    }
                }
                lemma_extends_trans(old(cache)@, mmid, cache@);
                assert forall|k: Seq<char>| cache@.contains_key(k) implies old(cache)@.contains_key(
                    k,
                ) || needs_file(err@, k) by {
                    if !mmid.contains_key(k) {
                        assert(needs_file((**b)@, k));
                    }
                }
            }
            out
        },
    }
}

} // verus!
