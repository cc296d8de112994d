//! What the shell can import, which is what the dma-buf global offers
//! clients: a format it cannot import would only fail later, in the shell.
//! And the GPU it imports on, which clients should allocate on.

use vstd::prelude::*;

verus! {

/// A DRM fourcc and modifier.
#[derive(Clone, Copy, Debug, PartialEq, Eq, Structural)]
pub struct FormatModifier {
    pub fourcc: u32,
    pub modifier: u64,
}

/// The number of the fourcc spelled `a`, `b`, `c`, `d`.
pub open spec fn fourcc_of(a: u8, b: u8, c: u8, d: u8) -> int {
    a + b * 0x100 + c * 0x1_0000 + d * 0x100_0000
}

/// The number of the fourcc spelled `code`: its bytes, the first lowest.
pub fn fourcc(code: [u8; 4]) -> (n: u32)
    ensures
        n == fourcc_of(code@[0], code@[1], code@[2], code@[3]),
        n == code@[0] + 0x100 * (code@[1] + 0x100 * (code@[2] + 0x100 * code@[3])),
{
    let a: u32 = code[0] as u32;
    let b: u32 = code[1] as u32;
    let c: u32 = code[2] as u32;
    let d: u32 = code[3] as u32;
    a + b * 0x100 + c * 0x1_0000 + d * 0x100_0000
}

/// The offer when the shell does not say.
pub open spec fn fallback_formats() -> Seq<FormatModifier> {
    seq![
        FormatModifier { fourcc: 0x3432_5241, modifier: 0 },
        FormatModifier { fourcc: 0x3432_5258, modifier: 0 },
        FormatModifier { fourcc: 0x3432_4241, modifier: 0 },
        FormatModifier { fourcc: 0x3432_4258, modifier: 0 },
    ]
}

/// LINEAR 8888, which every shell importer takes: the offer when the shell
/// does not say (no host, or one that predates the format list).
pub fn fallback() -> (formats: Vec<FormatModifier>)
    ensures
        formats@ == fallback_formats(),
{
    let mut formats: Vec<FormatModifier> = Vec::new();
    formats.push(FormatModifier { fourcc: fourcc([0x41, 0x52, 0x32, 0x34]), modifier: 0 });
    formats.push(FormatModifier { fourcc: fourcc([0x58, 0x52, 0x32, 0x34]), modifier: 0 });
    formats.push(FormatModifier { fourcc: fourcc([0x41, 0x42, 0x32, 0x34]), modifier: 0 });
    formats.push(FormatModifier { fourcc: fourcc([0x58, 0x42, 0x32, 0x34]), modifier: 0 });
    formats
}

/// The shell's EGLDisplay and EGLConfig, as addresses.
#[derive(Clone, Copy, Debug, PartialEq, Eq, Structural)]
pub struct ShellEgl {
    pub display: usize,
    pub config: usize,
}

/// What the shell reports.
#[derive(Clone, Debug, PartialEq)]
pub struct Caps {
    /// Importable formats, in the shell's order of preference.
    pub formats: Vec<FormatModifier>,
    /// The render node it imports on, when it can tell.
    pub render_device: Option<u64>,
    /// The shell's EGL display and config, when it samples image layers.
    pub egl_images: Option<ShellEgl>,
}

/// The shell's raw answer to a capability query.
#[derive(Clone, Debug)]
pub struct Answer {
    /// The query succeeded.
    pub ok: bool,
    pub formats: Vec<FormatModifier>,
    /// 0 when it cannot tell.
    pub render_device: u64,
    /// It samples image layers.
    pub samples_images: bool,
    /// Its EGL display and config; null where 0.
    pub egl: ShellEgl,
}

/// `offered` with every repetition left out.
pub open spec fn distinct(offered: Seq<FormatModifier>) -> Seq<FormatModifier>
    decreases offered.len(),
{
    if offered.len() == 0 {
        Seq::empty()
    } else {
        let rest = distinct(offered.drop_last());
        if rest.contains(offered.last()) {
            rest
        } else {
            rest.push(offered.last())
        }
    }
}

/// The formats to offer, given whether the shell answered and what it listed.
pub open spec fn formats_to_offer(ok: bool, offered: Seq<FormatModifier>) -> Seq<FormatModifier> {
    if !ok || offered.len() == 0 {
        fallback_formats()
    } else {
        distinct(offered)
    }
}

/// Whether `formats` lists `f`.
pub fn lists_format(formats: &Vec<FormatModifier>, f: FormatModifier) -> (found: bool)
    ensures
        found == formats@.contains(f),
{
    let mut i: usize = 0;
    while i < formats.len()
        invariant
            i <= formats.len(),
            forall|j: int| 0 <= j < i ==> formats@[j] != f,
        decreases formats.len() - i,
    {
        if formats[i] == f {
            assert(formats@[i as int] == f);
            return true;
        }
        i += 1;
    }
    false
}

/// The formats to offer clients: each the shell lists, once, in its order.
pub fn import_formats(ok: bool, offered: &Vec<FormatModifier>) -> (out: Vec<FormatModifier>)
    ensures
        out@ == formats_to_offer(ok, offered@),
{
    if !ok || offered.len() == 0 {
        return fallback();
    }
    let mut out: Vec<FormatModifier> = Vec::new();
    let mut i: usize = 0;
    assert(offered@.take(0) == Seq::<FormatModifier>::empty());
    while i < offered.len()
        invariant
            i <= offered.len(),
            out@ == distinct(offered@.take(i as int)),
        decreases offered.len() - i,
    {
        assert(offered@.take(i + 1).drop_last() == offered@.take(i as int));
        let f = offered[i];
        if !lists_format(&out, f) {
            out.push(f);
        }
        i += 1;
    }
    assert(offered@.take(i as int) == offered@);
    out
}

impl Caps {
    /// The shell lists `fourcc` with `modifier` as importable.
    pub open spec fn imports(self, fourcc: u32, modifier: u64) -> bool {
        self.formats@.contains(FormatModifier { fourcc, modifier })
    }

    /// The shell lists `fourcc` with `modifier` as importable.
    pub fn accepts(&self, fourcc: u32, modifier: u64) -> (yes: bool)
        ensures
            yes == self.imports(fourcc, modifier),
            yes <==> exists|i: int|
                0 <= i < self.formats@.len() && (#[trigger] self.formats@[i]).fourcc == fourcc
                    && self.formats@[i].modifier == modifier,
    {
        lists_format(&self.formats, FormatModifier { fourcc, modifier })
    }

    /// What the shell's answer says it can do.
    pub fn from_answer(answer: Answer) -> (caps: Caps)
        ensures
            caps.formats@ == formats_to_offer(answer.ok, answer.formats@),
            caps.render_device == if answer.ok && answer.render_device != 0 {
                Some(answer.render_device)
            } else {
                None
            },
            caps.egl_images == if answer.ok && answer.samples_images && answer.egl.display != 0
                && answer.egl.config != 0 {
                Some(answer.egl)
            } else {
                None
            },
    {
        let render_device = if answer.ok && answer.render_device != 0 {
            Some(answer.render_device)
        } else {
            None
        };
        let egl_images = if answer.ok && answer.samples_images && answer.egl.display != 0
            && answer.egl.config != 0 {
            Some(answer.egl)
        } else {
            None
        };
        Caps { formats: import_formats(answer.ok, &answer.formats), render_device, egl_images }
    }
}

/// Every format offered is listed by the shell or is one of those every shell
/// takes; nothing the shell lists is left out; nothing is offered twice.
pub proof fn the_offer_is_what_the_shell_lists(ok: bool, offered: Seq<FormatModifier>)
    ensures
        formats_to_offer(ok, offered).no_duplicates(),
        ok && offered.len() > 0 ==> forall|f: FormatModifier|
            formats_to_offer(ok, offered).contains(f) <==> #[trigger] offered.contains(f),
        formats_to_offer(ok, offered).len() > 0,
{
    distinct_lists_the_same(offered);
    if ok && offered.len() > 0 {
        assert(offered.contains(offered[0]));
        assert(distinct(offered).contains(offered[0]));
    }
}

proof fn distinct_lists_the_same(offered: Seq<FormatModifier>)
    ensures
        distinct(offered).no_duplicates(),
        forall|f: FormatModifier|
            distinct(offered).contains(f) <==> #[trigger] offered.contains(f),
    decreases offered.len(),
{
    if offered.len() > 0 {
        let d = offered.drop_last();
        let last = offered.last();
        distinct_lists_the_same(d);
        assert(offered == d.push(last));
        let rest = distinct(d);
        assert forall|f: FormatModifier|
            distinct(offered).contains(f) <==> #[trigger] offered.contains(f) by {
            if offered.contains(f) {
                let i = choose|i: int| 0 <= i < offered.len() && offered[i] == f;
                if i < d.len() {
                    assert(d[i] == f);
                    assert(d.contains(f));
                    let j = choose|j: int| 0 <= j < rest.len() && rest[j] == f;
                    assert(distinct(offered)[j] == f);
                } else if !rest.contains(last) {
                    assert(distinct(offered)[rest.len() as int] == last);
                }
            }
            if distinct(offered).contains(f) {
                let j = choose|j: int|
                    0 <= j < distinct(offered).len() && distinct(offered)[j] == f;
                if j < rest.len() {
                    assert(rest[j] == f);
                    assert(rest.contains(f));
                    assert(d.contains(f));
                    let i = choose|i: int| 0 <= i < d.len() && d[i] == f;
                    assert(offered[i] == f);
                } else {
                    assert(offered[offered.len() - 1] == f);
                }
            }
        }
    }
}

/// A fourcc's number holds the bytes it is spelled with, the first lowest.
pub proof fn a_fourcc_holds_its_letters(a: u8, b: u8, c: u8, d: u8)
    ensures
        fourcc_of(a, b, c, d) == a + 0x100 * (b + 0x100 * (c + 0x100 * d)),
{
}

/// A shell that does not answer, or lists nothing, is offered the four linear
/// formats of 8 bits a channel, with alpha before without.
pub proof fn a_silent_shell_gets_linear_buffers(ok: bool, offered: Seq<FormatModifier>)
    requires
        !ok || offered.len() == 0,
    ensures
        formats_to_offer(ok, offered).len() == 4,
        forall|i: int|
            0 <= i < 4 ==> (#[trigger] formats_to_offer(ok, offered)[i]).modifier == 0,
        formats_to_offer(ok, offered)[0].fourcc == 0x3432_5241,
        formats_to_offer(ok, offered)[1].fourcc == 0x3432_5258,
        formats_to_offer(ok, offered)[2].fourcc == 0x3432_4241,
        formats_to_offer(ok, offered)[3].fourcc == 0x3432_4258,
{
}

/// The shell's order of preference is kept: what it lists first is offered
/// first, what it lists more only comes after, and a list without repetitions
/// is offered as it is.
pub proof fn the_shells_order_is_kept(offered: Seq<FormatModifier>, k: int)
    requires
        0 < k <= offered.len(),
    ensures
        formats_to_offer(true, offered.take(k)).is_prefix_of(formats_to_offer(true, offered)),
        offered.no_duplicates() ==> formats_to_offer(true, offered) == offered,
        formats_to_offer(true, offered)[0] == offered[0],
    decreases offered.len(),
{
    distinct_lists_the_same(offered);
    distinct_keeps_the_order(offered, k);
    distinct_keeps_the_order(offered, 1);
    let one = offered.take(1);
    assert(one.drop_last() == Seq::<FormatModifier>::empty());
    assert(distinct(one.drop_last()) == Seq::<FormatModifier>::empty());
    assert(distinct(one) == seq![offered[0]]);
    assert(distinct(offered)[0] == distinct(one)[0]);
}

proof fn distinct_keeps_the_order(offered: Seq<FormatModifier>, k: int)
    requires
        0 <= k <= offered.len(),
    ensures
        distinct(offered.take(k)).is_prefix_of(distinct(offered)),
        offered.no_duplicates() ==> distinct(offered) == offered,
    decreases offered.len(),
{
    if k == offered.len() {
        assert(offered.take(k) == offered);
    }
    if offered.len() > 0 {
        let d = offered.drop_last();
        let j = if k < offered.len() {
            k
        } else {
            d.len() as int
        };
        distinct_keeps_the_order(d, j);
        if k < offered.len() {
            assert(d.take(k) == offered.take(k));
        }
        if offered.no_duplicates() {
            assert(d.no_duplicates());
            assert(distinct(d) == d);
            if d.contains(offered.last()) {
                let i = choose|i: int| 0 <= i < d.len() && d[i] == offered.last();
                assert(offered[i] == offered[offered.len() - 1]);
            }
            assert(d.push(offered.last()) == offered);
        }
    }
}

} // verus!
