//! The HTML rewriter: every URL-bearing attribute (`href`, `src`,
//! `action`, `formaction`, `poster`) is rewritten so that following it
//! re-enters the proxy through the `/~/` path space, with the reference
//! first resolved against the page's own base URL. Fragment-only,
//! `javascript:`, `mailto:` and `data:` references are left alone.
//!
//! The pass is a single byte-driven state machine over the document: text,
//! comments, `<!...>` declarations and unknown attributes are copied
//! verbatim, so malformed markup flows through unharmed; only a reference
//! that should be rewritten but cannot be resolved fails the pass — the
//! caller then answers with an error rather than leak an unrewritten
//! document.
//!
//! The machine's behaviour is specified by [`rw_step`], one byte at a
//! time, and the executable pass is proved to compute exactly the fold of
//! that step function over the document.

use vstd::prelude::*;
use vstd::string::StringSliceAdditionalSpecFns;
use vstd::string::StrSliceExecFns;
use crate::ascii::{eq_ignore_case, is_space, is_space_ex, starts_with_ignore_case,
    starts_with_lower};
use crate::headers::name_is;
use crate::response::ProxyError;
use crate::urlkit::{proxy_form, spec_proxy_form, TargetUrl};

verus! {

/// Where the scan stands: in text, just after `<`, inside a `<!...>`
/// declaration or comment, between attributes of a tag, inside an
/// attribute name or value, or inside a stray quoted span.
pub enum RwMode {
    Text,
    Lt,
    Bang,
    BangDash,
    BangRest,
    Comment,
    CommentDash,
    CommentDash2,
    TagWs,
    AttrName,
    AttrEq,
    ValDq,
    ValSq,
    ValUnq,
    JunkDq,
    JunkSq,
}

/// The machine's state at the spec level: the mode, everything emitted so
/// far, the buffered attribute name and value, and whether a reference has
/// failed to resolve.
#[verifier::ext_equal]
pub struct RwSpec {
    pub mode: RwMode,
    pub out: Seq<u8>,
    pub name: Seq<u8>,
    pub val: Seq<u8>,
    pub failed: bool,
}

pub open spec fn is_alpha(b: u8) -> bool {
    (65 <= b && b <= 90) || (97 <= b && b <= 122)
}

/// Attributes whose value carries a reference to rewrite.
pub open spec fn is_rewrite_attr(name: Seq<u8>) -> bool {
    name_is(name, "href".spec_bytes()) || name_is(name, "src".spec_bytes()) || name_is(
        name,
        "action".spec_bytes(),
    ) || name_is(name, "formaction".spec_bytes()) || name_is(name, "poster".spec_bytes())
}

/// Values left untouched: empty, fragment-only, and the schemes that never
/// reach the network through the proxy.
pub open spec fn skip_value(v: Seq<u8>) -> bool {
    v.len() == 0 || v[0] == 35 || starts_with_lower(v, "javascript:".spec_bytes())
        || starts_with_lower(v, "mailto:".spec_bytes()) || starts_with_lower(
        v,
        "data:".spec_bytes(),
    )
}

/// Close the buffered attribute: rewrite its value into proxy form when it
/// is a reference-bearing attribute, reproduce it verbatim otherwise
/// (`quote` being how the value was quoted). A reference that will not
/// resolve marks the pass failed.
pub open spec fn finish_attr(base: Seq<u8>, st: RwSpec, quote: Option<u8>) -> RwSpec {
    if is_rewrite_attr(st.name) && !skip_value(st.val) {
        match spec_proxy_form(base, st.val) {
            Some(link) => RwSpec {
                out: st.out + st.name + seq![61u8, 34u8] + link + seq![34u8],
                name: Seq::empty(),
                val: Seq::empty(),
                ..st
            },
            None => RwSpec { failed: true, name: Seq::empty(), val: Seq::empty(), ..st },
        }
    } else {
        let q: Seq<u8> = match quote {
            Some(c) => seq![c],
            None => Seq::empty(),
        };
        RwSpec {
            out: st.out + st.name + seq![61u8] + q + st.val + q,
            name: Seq::empty(),
            val: Seq::empty(),
            ..st
        }
    }
}

/// One byte of the scan.
pub open spec fn rw_step(base: Seq<u8>, st: RwSpec, b: u8) -> RwSpec {
    match st.mode {
        RwMode::Text => if b == 60 {
            RwSpec { mode: RwMode::Lt, out: st.out + seq![b], ..st }
        } else {
            RwSpec { out: st.out + seq![b], ..st }
        },
        RwMode::Lt => if b == 33 {
            RwSpec { mode: RwMode::Bang, out: st.out + seq![b], ..st }
        } else if b == 47 || is_alpha(b) {
            RwSpec { mode: RwMode::AttrName, name: seq![b], ..st }
        } else if b == 60 {
            RwSpec { out: st.out + seq![b], ..st }
        } else {
            RwSpec { mode: RwMode::Text, out: st.out + seq![b], ..st }
        },
        RwMode::Bang => if b == 45 {
            RwSpec { mode: RwMode::BangDash, out: st.out + seq![b], ..st }
        } else if b == 62 {
            RwSpec { mode: RwMode::Text, out: st.out + seq![b], ..st }
        } else {
            RwSpec { mode: RwMode::BangRest, out: st.out + seq![b], ..st }
        },
        RwMode::BangDash => if b == 45 {
            RwSpec { mode: RwMode::Comment, out: st.out + seq![b], ..st }
        } else if b == 62 {
            RwSpec { mode: RwMode::Text, out: st.out + seq![b], ..st }
        } else {
            RwSpec { mode: RwMode::BangRest, out: st.out + seq![b], ..st }
        },
        RwMode::BangRest => if b == 62 {
            RwSpec { mode: RwMode::Text, out: st.out + seq![b], ..st }
        } else {
            RwSpec { out: st.out + seq![b], ..st }
        },
        RwMode::Comment => if b == 45 {
            RwSpec { mode: RwMode::CommentDash, out: st.out + seq![b], ..st }
        } else {
            RwSpec { out: st.out + seq![b], ..st }
        },
        RwMode::CommentDash => if b == 45 {
            RwSpec { mode: RwMode::CommentDash2, out: st.out + seq![b], ..st }
        } else {
            RwSpec { mode: RwMode::Comment, out: st.out + seq![b], ..st }
        },
        RwMode::CommentDash2 => if b == 62 {
            RwSpec { mode: RwMode::Text, out: st.out + seq![b], ..st }
        } else if b == 45 {
            RwSpec { out: st.out + seq![b], ..st }
        } else {
            RwSpec { mode: RwMode::Comment, out: st.out + seq![b], ..st }
        },
        RwMode::TagWs => if b == 62 {
            RwSpec { mode: RwMode::Text, out: st.out + seq![b], ..st }
        } else if b == 34 {
            RwSpec { mode: RwMode::JunkDq, out: st.out + seq![b], ..st }
        } else if b == 39 {
            RwSpec { mode: RwMode::JunkSq, out: st.out + seq![b], ..st }
        } else if is_space(b) || b == 47 || b == 61 || b == 60 {
            RwSpec { out: st.out + seq![b], ..st }
        } else {
            RwSpec { mode: RwMode::AttrName, name: seq![b], ..st }
        },
        RwMode::AttrName => if b == 61 {
            RwSpec { mode: RwMode::AttrEq, ..st }
        } else if b == 62 {
            RwSpec { mode: RwMode::Text, out: st.out + st.name + seq![b], name: Seq::empty(), ..st }
        } else if is_space(b) || b == 47 {
            RwSpec {
                mode: RwMode::TagWs,
                out: st.out + st.name + seq![b],
                name: Seq::empty(),
                ..st
            }
        } else {
            RwSpec { name: st.name + seq![b], ..st }
        },
        RwMode::AttrEq => if b == 34 {
            RwSpec { mode: RwMode::ValDq, val: Seq::empty(), ..st }
        } else if b == 39 {
            RwSpec { mode: RwMode::ValSq, val: Seq::empty(), ..st }
        } else if b == 62 {
            let f = finish_attr(base, st, None);
            RwSpec { mode: RwMode::Text, out: f.out + seq![b], ..f }
        } else if is_space(b) {
            let f = finish_attr(base, st, None);
            RwSpec { mode: RwMode::TagWs, out: f.out + seq![b], ..f }
        } else {
            RwSpec { mode: RwMode::ValUnq, val: seq![b], ..st }
        },
        RwMode::ValDq => if b == 34 {
            let f = finish_attr(base, st, Some(34u8));
            RwSpec { mode: RwMode::TagWs, ..f }
        } else {
            RwSpec { val: st.val + seq![b], ..st }
        },
        RwMode::ValSq => if b == 39 {
            let f = finish_attr(base, st, Some(39u8));
            RwSpec { mode: RwMode::TagWs, ..f }
        } else {
            RwSpec { val: st.val + seq![b], ..st }
        },
        RwMode::ValUnq => if b == 62 {
            let f = finish_attr(base, st, None);
            RwSpec { mode: RwMode::Text, out: f.out + seq![b], ..f }
        } else if is_space(b) {
            let f = finish_attr(base, st, None);
            RwSpec { mode: RwMode::TagWs, out: f.out + seq![b], ..f }
        } else {
            RwSpec { val: st.val + seq![b], ..st }
        },
        RwMode::JunkDq => if b == 34 {
            RwSpec { mode: RwMode::TagWs, out: st.out + seq![b], ..st }
        } else {
            RwSpec { out: st.out + seq![b], ..st }
        },
        RwMode::JunkSq => if b == 39 {
            RwSpec { mode: RwMode::TagWs, out: st.out + seq![b], ..st }
        } else {
            RwSpec { out: st.out + seq![b], ..st }
        },
    }
}

pub open spec fn rw_init() -> RwSpec {
    RwSpec {
        mode: RwMode::Text,
        out: Seq::empty(),
        name: Seq::empty(),
        val: Seq::empty(),
        failed: false,
    }
}

/// The machine after the first `i` bytes of the document.
pub open spec fn rw_run(base: Seq<u8>, doc: Seq<u8>, i: int) -> RwSpec
    decreases i,
{
    if i <= 0 {
        rw_init()
    } else {
        rw_step(base, rw_run(base, doc, i - 1), doc[i - 1])
    }
}

/// What a final state emits: buffered pieces of an unterminated tag flow
/// out verbatim.
pub open spec fn rw_final_out(st: RwSpec) -> Seq<u8> {
    match st.mode {
        RwMode::AttrName => st.out + st.name,
        RwMode::AttrEq => st.out + st.name + seq![61u8],
        RwMode::ValDq => st.out + st.name + seq![61u8, 34u8] + st.val,
        RwMode::ValSq => st.out + st.name + seq![61u8, 39u8] + st.val,
        RwMode::ValUnq => st.out + st.name + seq![61u8] + st.val,
        _ => st.out,
    }
}

/// The whole pass: the fold of `rw_step` over the document, `None` when
/// some reference failed to resolve.
pub open spec fn spec_rewrite(doc: Seq<u8>, base: Seq<u8>) -> Option<Seq<u8>> {
    let st = rw_run(base, doc, doc.len() as int);
    if st.failed {
        None
    } else {
        Some(rw_final_out(st))
    }
}

/// The machine's state as executable data.
pub struct RwState {
    pub mode: RwMode,
    pub out: Vec<u8>,
    pub name: Vec<u8>,
    pub val: Vec<u8>,
    pub failed: bool,
}

impl View for RwState {
    type V = RwSpec;

    open spec fn view(&self) -> RwSpec {
        RwSpec {
            mode: self.mode,
            out: self.out@,
            name: self.name@,
            val: self.val@,
            failed: self.failed,
        }
    }
}

fn is_alpha_ex(b: u8) -> (r: bool)
    ensures
        r == is_alpha(b),
{
    (65 <= b && b <= 90) || (97 <= b && b <= 122)
}

fn is_rewrite_attr_ex(name: &[u8]) -> (r: bool)
    ensures
        r == is_rewrite_attr(name@),
{
    eq_ignore_case(name, "href".as_bytes_vec().as_slice()) || eq_ignore_case(
        name,
        "src".as_bytes_vec().as_slice(),
    ) || eq_ignore_case(name, "action".as_bytes_vec().as_slice()) || eq_ignore_case(
        name,
        "formaction".as_bytes_vec().as_slice(),
    ) || eq_ignore_case(name, "poster".as_bytes_vec().as_slice())
}

fn skip_value_ex(v: &[u8]) -> (r: bool)
    ensures
        r == skip_value(v@),
{
    v.len() == 0 || v[0] == 35 || starts_with_ignore_case(v, "javascript:".as_bytes_vec().as_slice())
        || starts_with_ignore_case(v, "mailto:".as_bytes_vec().as_slice())
        || starts_with_ignore_case(v, "data:".as_bytes_vec().as_slice())
}

/// Close the buffered attribute in `st`, as `finish_attr` has it.
fn finish_attr_ex(base: &[u8], st: &mut RwState, quote: Option<u8>)
    ensures
        final(st)@ == finish_attr(base@, old(st)@, quote),
{
    let ghost st0 = st@;
    if is_rewrite_attr_ex(st.name.as_slice()) && !skip_value_ex(st.val.as_slice()) {
        match proxy_form(base, st.val.as_slice()) {
            Some(link) => {
                st.out.extend_from_slice(st.name.as_slice());
                st.name.clear();
                st.out.push(61);
                st.out.push(34);
                st.out.extend_from_slice(link.as_slice());
                st.out.push(34);
                st.val.clear();
                proof {
                    assert(st@.out =~= st0.out + st0.name + seq![61u8, 34u8] + link@ + seq![34u8]);
                    assert(st@ =~= finish_attr(base@, st0, quote));
                }
            },
            None => {
                st.failed = true;
                st.name.clear();
                st.val.clear();
                proof {
                    assert(st@ =~= finish_attr(base@, st0, quote));
                }
            },
        }
    } else {
        st.out.extend_from_slice(st.name.as_slice());
        st.name.clear();
        st.out.push(61);
        match quote {
            Some(c) => {
                st.out.push(c);
                st.out.extend_from_slice(st.val.as_slice());
                st.val.clear();
                st.out.push(c);
                proof {
                    assert(st@.out =~= st0.out + st0.name + seq![61u8] + seq![quote.unwrap()]
                        + st0.val + seq![quote.unwrap()]);
                    assert(st@ =~= finish_attr(base@, st0, quote));
                }
            },
            None => {
                st.out.extend_from_slice(st.val.as_slice());
                st.val.clear();
                proof {
                    assert(st@.out =~= st0.out + st0.name + seq![61u8] + Seq::<u8>::empty()
                        + st0.val + Seq::<u8>::empty());
                    assert(st@ =~= finish_attr(base@, st0, quote));
                }
            },
        }
    }
}

/// Feed one byte to the machine.
fn rw_step_ex(base: &[u8], st: &mut RwState, b: u8)
    ensures
        final(st)@ == rw_step(base@, old(st)@, b),
{
    let ghost st0 = st@;
    match st.mode {
        RwMode::Text => {
            st.out.push(b);
            if b == 60 {
                st.mode = RwMode::Lt;
            }
        },
        RwMode::Lt => {
            if b == 33 {
                st.out.push(b);
                st.mode = RwMode::Bang;
            } else if b == 47 || is_alpha_ex(b) {
                st.name.clear();
                st.name.push(b);
                st.mode = RwMode::AttrName;
            } else if b == 60 {
                st.out.push(b);
            } else {
                st.out.push(b);
                st.mode = RwMode::Text;
            }
        },
        RwMode::Bang => {
            st.out.push(b);
            st.mode = if b == 45 {
                RwMode::BangDash
            } else if b == 62 {
                RwMode::Text
            } else {
                RwMode::BangRest
            };
        },
        RwMode::BangDash => {
            st.out.push(b);
            st.mode = if b == 45 {
                RwMode::Comment
            } else if b == 62 {
                RwMode::Text
            } else {
                RwMode::BangRest
            };
        },
        RwMode::BangRest => {
            st.out.push(b);
            if b == 62 {
                st.mode = RwMode::Text;
            }
        },
        RwMode::Comment => {
            st.out.push(b);
            if b == 45 {
                st.mode = RwMode::CommentDash;
            }
        },
        RwMode::CommentDash => {
            st.out.push(b);
            st.mode = if b == 45 {
                RwMode::CommentDash2
            } else {
                RwMode::Comment
            };
        },
        RwMode::CommentDash2 => {
            st.out.push(b);
            st.mode = if b == 62 {
                RwMode::Text
            } else if b == 45 {
                RwMode::CommentDash2
            } else {
                RwMode::Comment
            };
        },
        RwMode::TagWs => {
            if b == 62 {
                st.out.push(b);
                st.mode = RwMode::Text;
            } else if b == 34 {
                st.out.push(b);
                st.mode = RwMode::JunkDq;
            } else if b == 39 {
                st.out.push(b);
                st.mode = RwMode::JunkSq;
            } else if is_space_ex(b) || b == 47 || b == 61 || b == 60 {
                st.out.push(b);
            } else {
                st.name.clear();
                st.name.push(b);
                st.mode = RwMode::AttrName;
            }
        },
        RwMode::AttrName => {
            if b == 61 {
                st.mode = RwMode::AttrEq;
            } else if b == 62 {
                st.out.extend_from_slice(st.name.as_slice());
                st.name.clear();
                st.out.push(b);
                st.mode = RwMode::Text;
            } else if is_space_ex(b) || b == 47 {
                st.out.extend_from_slice(st.name.as_slice());
                st.name.clear();
                st.out.push(b);
                st.mode = RwMode::TagWs;
            } else {
                st.name.push(b);
            }
        },
        RwMode::AttrEq => {
            if b == 34 {
                st.val.clear();
                st.mode = RwMode::ValDq;
            } else if b == 39 {
                st.val.clear();
                st.mode = RwMode::ValSq;
            } else if b == 62 {
                finish_attr_ex(base, st, None);
                st.out.push(b);
                st.mode = RwMode::Text;
            } else if is_space_ex(b) {
                finish_attr_ex(base, st, None);
                st.out.push(b);
                st.mode = RwMode::TagWs;
            } else {
                st.val.clear();
                st.val.push(b);
                st.mode = RwMode::ValUnq;
            }
        },
        RwMode::ValDq => {
            if b == 34 {
                finish_attr_ex(base, st, Some(34));
                st.mode = RwMode::TagWs;
            } else {
                st.val.push(b);
            }
        },
        RwMode::ValSq => {
            if b == 39 {
                finish_attr_ex(base, st, Some(39));
                st.mode = RwMode::TagWs;
            } else {
                st.val.push(b);
            }
        },
        RwMode::ValUnq => {
            if b == 62 {
                finish_attr_ex(base, st, None);
                st.out.push(b);
                st.mode = RwMode::Text;
            } else if is_space_ex(b) {
                finish_attr_ex(base, st, None);
                st.out.push(b);
                st.mode = RwMode::TagWs;
            } else {
                st.val.push(b);
            }
        },
        RwMode::JunkDq => {
            st.out.push(b);
            if b == 34 {
                st.mode = RwMode::TagWs;
            }
        },
        RwMode::JunkSq => {
            st.out.push(b);
            if b == 39 {
                st.mode = RwMode::TagWs;
            }
        },
    }
    proof {
        assert(st@ =~= rw_step(base@, st0, b));
    }
}

/// Rewrite a whole HTML document against its base URL. Fails — with no
/// partial output — exactly when some reference that must be rewritten
/// does not resolve.
pub fn rewrite(doc: &[u8], base: &TargetUrl) -> (r: Result<Vec<u8>, ProxyError>)
    ensures
        match r {
            Ok(v) => spec_rewrite(doc@, base.text@) == Some(v@),
            Err(e) => e is RewriteError && spec_rewrite(doc@, base.text@) is None,
        },
{
    let mut st = RwState {
        mode: RwMode::Text,
        out: Vec::new(),
        name: Vec::new(),
        val: Vec::new(),
        failed: false,
    };
    assert(st@ =~= rw_init());
    let mut i: usize = 0;
    while i < doc.len()
        invariant
            i <= doc@.len(),
            st@ == rw_run(base.text@, doc@, i as int),
        decreases doc@.len() - i,
    {
        rw_step_ex(base.text.as_slice(), &mut st, doc[i]);
        i += 1;
    }
    if st.failed {
        return Err(ProxyError::RewriteError);
    }
    let ghost fin = rw_run(base.text@, doc@, doc@.len() as int);
    match st.mode {
        RwMode::AttrName => {
            st.out.extend_from_slice(st.name.as_slice());
            st.name.clear();
            assert(st.out@ =~= rw_final_out(fin));
        },
        RwMode::AttrEq => {
            st.out.extend_from_slice(st.name.as_slice());
            st.name.clear();
            st.out.push(61);
            assert(st.out@ =~= rw_final_out(fin));
        },
        RwMode::ValDq => {
            st.out.extend_from_slice(st.name.as_slice());
            st.name.clear();
            st.out.push(61);
            st.out.push(34);
            st.out.extend_from_slice(st.val.as_slice());
            st.val.clear();
            assert(st.out@ =~= rw_final_out(fin));
        },
        RwMode::ValSq => {
            st.out.extend_from_slice(st.name.as_slice());
            st.name.clear();
            st.out.push(61);
            st.out.push(39);
            st.out.extend_from_slice(st.val.as_slice());
            st.val.clear();
            assert(st.out@ =~= rw_final_out(fin));
        },
        RwMode::ValUnq => {
            st.out.extend_from_slice(st.name.as_slice());
            st.name.clear();
            st.out.push(61);
            st.out.extend_from_slice(st.val.as_slice());
            st.val.clear();
            assert(st.out@ =~= rw_final_out(fin));
        },
        _ => {
            assert(st.out@ =~= rw_final_out(fin));
        },
    }
    Ok(st.out)
}

} // verus!
