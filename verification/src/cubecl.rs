use vstd::prelude::*;

use crate::error::UfoError;
use crate::text::push_str;
use crate::instruction::{ArgValue, Instruction, InstructionModel};
use crate::text::{
    chars_of, eq_ignore_ascii_case_range, eq_range, parse_usize, push_decimal, spec_decimal,
    spec_eq_ignore_ascii_case, spec_parse_usize, spec_trim, string_from_range, trim_bounds,
    lemma_decimal_digits, lemma_parse_decimal, lemma_trim_unchanged, spec_is_digit,
};

verus! {

/// The compute backends that tracking can run on.
#[derive(Clone, Copy, Debug, PartialEq, Eq, Structural)]
pub enum CubeClBackend {
    Auto,
    Cpu,
    Vulkan,
    Cuda,
    Hip,
    Metal,
}

/// A device of a backend.
#[derive(Clone, Copy, Debug, PartialEq, Eq, Structural)]
pub enum CubeClDevice {
    Default,
    Index(usize),
    WgpuCpu,
    DiscreteGpu(usize),
    IntegratedGpu(usize),
    VirtualGpu(usize),
}

/// A device found on this machine, with the selector that names it on the command line.
#[derive(Clone, Debug)]
pub struct CubeClDeviceInfo {
    pub backend: CubeClBackend,
    pub device: CubeClDevice,
    pub selector: String,
}

/// How a tracking run is carried out.
#[derive(Clone, Debug)]
pub struct CubeClTrackRunOptions {
    pub turns: u32,
    pub backend: CubeClBackend,
    pub device: CubeClDevice,
}

impl Default for CubeClTrackRunOptions {
    fn default() -> (o: Self)
        ensures
            o.turns == 1,
            o.backend == CubeClBackend::Auto,
            o.device == CubeClDevice::Default,
    {
        CubeClTrackRunOptions { turns: 1, backend: CubeClBackend::Auto, device: CubeClDevice::Default }
    }
}

/// The device that a graphics adapter of the given type number and index stands for:
/// 0 discrete, 1 integrated, 2 virtual, 3 the CPU; any other type is the default device.
pub open spec fn spec_wgpu_device_from_id(type_id: u16, index: usize) -> CubeClDevice {
    if type_id == 0 {
        CubeClDevice::DiscreteGpu(index)
    } else if type_id == 1 {
        CubeClDevice::IntegratedGpu(index)
    } else if type_id == 2 {
        CubeClDevice::VirtualGpu(index)
    } else if type_id == 3 {
        CubeClDevice::WgpuCpu
    } else {
        CubeClDevice::Default
    }
}

/// The device that a graphics adapter of the given type number and index stands for.
pub fn wgpu_device_from_id(type_id: u16, index: usize) -> (d: CubeClDevice)
    ensures
        d == spec_wgpu_device_from_id(type_id, index),
{
    match type_id {
        0 => CubeClDevice::DiscreteGpu(index),
        1 => CubeClDevice::IntegratedGpu(index),
        2 => CubeClDevice::VirtualGpu(index),
        3 => CubeClDevice::WgpuCpu,
        _ => CubeClDevice::Default,
    }
}

/// The part of a device selector after the backend prefix.
pub open spec fn spec_selector_suffix(device: CubeClDevice) -> Seq<char> {
    match device {
        CubeClDevice::Default => "default"@,
        CubeClDevice::Index(i) => spec_decimal(i as nat),
        CubeClDevice::WgpuCpu => "cpu"@,
        CubeClDevice::DiscreteGpu(i) => "discrete:"@ + spec_decimal(i as nat),
        CubeClDevice::IntegratedGpu(i) => "integrated:"@ + spec_decimal(i as nat),
        CubeClDevice::VirtualGpu(i) => "virtual:"@ + spec_decimal(i as nat),
    }
}

/// The part of a device selector after the backend prefix.
pub fn device_selector_suffix(device: CubeClDevice) -> (s: String)
    ensures
        s@ == spec_selector_suffix(device),
{
    let mut s = String::new();
    match device {
        CubeClDevice::Default => push_str(&mut s, "default"),
        CubeClDevice::Index(i) => push_decimal(&mut s, i),
        CubeClDevice::WgpuCpu => push_str(&mut s, "cpu"),
        CubeClDevice::DiscreteGpu(i) => {
            push_str(&mut s, "discrete:");
            push_decimal(&mut s, i);
        },
        CubeClDevice::IntegratedGpu(i) => {
            push_str(&mut s, "integrated:");
            push_decimal(&mut s, i);
        },
        CubeClDevice::VirtualGpu(i) => {
            push_str(&mut s, "virtual:");
            push_decimal(&mut s, i);
        },
    }
    s
}

/// What the device list holds for the given graphics adapters: one Vulkan entry per adapter,
/// in order, then the CPU runtime.
pub open spec fn spec_list_devices(adapters: Seq<(u16, usize)>) -> Seq<(CubeClBackend, CubeClDevice, Seq<char>)> {
    Seq::new(
        adapters.len(),
        |i: int|
            {
                let device = spec_wgpu_device_from_id(adapters[i].0, adapters[i].1);
                (CubeClBackend::Vulkan, device, "vulkan:"@ + spec_selector_suffix(device))
            },
    ).push((CubeClBackend::Cpu, CubeClDevice::Default, "cpu:0"@))
}

/// The devices to offer, given the graphics adapters that enumeration found as
/// `(type number, index)` pairs.
pub fn list_devices(adapters: &[(u16, usize)]) -> (r: Vec<CubeClDeviceInfo>)
    ensures
        r@.map_values(|d: CubeClDeviceInfo| (d.backend, d.device, d.selector@)) == spec_list_devices(
            adapters@,
        ),
{
    let mut devices: Vec<CubeClDeviceInfo> = Vec::new();
    let mut k: usize = 0;
    while k < adapters.len()
        invariant
            k <= adapters.len(),
            devices@.len() == k,
            forall|i: int|
                0 <= i < k ==> {
                    let device = spec_wgpu_device_from_id(adapters@[i].0, adapters@[i].1);
                    &&& (#[trigger] devices@[i]).backend == CubeClBackend::Vulkan
                    &&& devices@[i].device == device
                    &&& devices@[i].selector@ == "vulkan:"@ + spec_selector_suffix(device)
                },
        decreases adapters.len() - k,
    {
        let (type_id, index) = adapters[k];
        let device = wgpu_device_from_id(type_id, index);
        let mut selector = String::new();
        push_str(&mut selector, "vulkan:");
        let suffix = device_selector_suffix(device);
        push_str(&mut selector, suffix.as_str());
        devices.push(CubeClDeviceInfo { backend: CubeClBackend::Vulkan, device, selector });
        k = k + 1;
    }
    let mut cpu = String::new();
    push_str(&mut cpu, "cpu:0");
    devices.push(CubeClDeviceInfo { backend: CubeClBackend::Cpu, device: CubeClDevice::Default, selector: cpu });
    assert(devices@.map_values(|d: CubeClDeviceInfo| (d.backend, d.device, d.selector@))
        =~= spec_list_devices(adapters@));
    devices
}


/// The name of a backend as `{:?}` prints it.
pub open spec fn spec_backend_name(backend: CubeClBackend) -> Seq<char> {
    match backend {
        CubeClBackend::Auto => "Auto"@,
        CubeClBackend::Cpu => "Cpu"@,
        CubeClBackend::Vulkan => "Vulkan"@,
        CubeClBackend::Cuda => "Cuda"@,
        CubeClBackend::Hip => "Hip"@,
        CubeClBackend::Metal => "Metal"@,
    }
}

/// The name of a backend as `{:?}` prints it.
pub fn backend_name(backend: CubeClBackend) -> (r: &'static str)
    ensures
        r@ == spec_backend_name(backend),
{
    match backend {
        CubeClBackend::Auto => "Auto",
        CubeClBackend::Cpu => "Cpu",
        CubeClBackend::Vulkan => "Vulkan",
        CubeClBackend::Cuda => "Cuda",
        CubeClBackend::Hip => "Hip",
        CubeClBackend::Metal => "Metal",
    }
}

/// Whether `s` begins with `p`.
pub open spec fn starts_with(s: Seq<char>, p: Seq<char>) -> bool {
    p.len() <= s.len() && s.subrange(0, p.len() as int) == p
}

/// The backend that a selector names by its prefix, with the prefix's length; the prefixes
/// are tried in the order `cpu:`, `vulkan:`, `cuda:`, `hip:`, `metal:`.
pub open spec fn spec_selector_prefix(s: Seq<char>) -> Option<(CubeClBackend, nat)> {
    if starts_with(s, "cpu:"@) {
        Some((CubeClBackend::Cpu, 4))
    } else if starts_with(s, "vulkan:"@) {
        Some((CubeClBackend::Vulkan, 7))
    } else if starts_with(s, "cuda:"@) {
        Some((CubeClBackend::Cuda, 5))
    } else if starts_with(s, "hip:"@) {
        Some((CubeClBackend::Hip, 4))
    } else if starts_with(s, "metal:"@) {
        Some((CubeClBackend::Metal, 6))
    } else {
        None
    }
}

/// The message of a selector that names no device.
pub open spec fn spec_invalid_selector(raw: Seq<char>) -> Seq<char> {
    "invalid device selector `"@ + raw + "`"@
}

/// The message of a selector whose prefix names another backend than the one asked for.
pub open spec fn spec_mismatched_selector(raw: Seq<char>, backend: CubeClBackend) -> Seq<char> {
    "device selector `"@ + raw + "` does not match backend "@ + spec_backend_name(backend)
}

/// The device that a numbered form `prefix` + index names, or the invalid-selector message.
pub open spec fn spec_indexed(
    index: Seq<char>,
    raw: Seq<char>,
    make: spec_fn(usize) -> CubeClDevice,
) -> core::result::Result<CubeClDevice, Seq<char>> {
    match spec_parse_usize(index) {
        Some(i) => Ok(make(i)),
        None => Err(spec_invalid_selector(raw)),
    }
}

/// The device that the part of a selector after its backend prefix names, or the message
/// of the error; `raw` is the selector as given.
pub open spec fn spec_device_part(
    backend: CubeClBackend,
    sel: Seq<char>,
    raw: Seq<char>,
) -> core::result::Result<CubeClDevice, Seq<char>> {
    if spec_eq_ignore_ascii_case(sel, "default"@) {
        Ok(CubeClDevice::Default)
    } else if spec_eq_ignore_ascii_case(sel, "cpu"@) || (sel == "0"@ && backend
        == CubeClBackend::Cpu) {
        Ok(CubeClDevice::WgpuCpu)
    } else if starts_with(sel, "discrete:"@) {
        spec_indexed(sel.skip(9), raw, |i: usize| CubeClDevice::DiscreteGpu(i))
    } else if starts_with(sel, "integrated:"@) {
        spec_indexed(sel.skip(11), raw, |i: usize| CubeClDevice::IntegratedGpu(i))
    } else if starts_with(sel, "virtual:"@) {
        spec_indexed(sel.skip(8), raw, |i: usize| CubeClDevice::VirtualGpu(i))
    } else {
        match spec_parse_usize(sel) {
            Some(i) => Ok(
                if backend == CubeClBackend::Vulkan || backend == CubeClBackend::Metal {
                    CubeClDevice::DiscreteGpu(i)
                } else {
                    CubeClDevice::Index(i)
                },
            ),
            None => Err(spec_invalid_selector(raw)),
        }
    }
}

/// What a device selector names for the given backend: the selector is trimmed, a backend
/// prefix is taken off (and must agree with `backend` unless that is `Auto`), and the rest
/// names the device. `Err` holds the message of the parse error.
pub open spec fn spec_device_selector(backend: CubeClBackend, raw: Seq<char>) -> core::result::Result<
    CubeClDevice,
    Seq<char>,
> {
    let t = spec_trim(raw);
    match spec_selector_prefix(t) {
        Some((b, n)) => if backend != CubeClBackend::Auto && backend != b {
            Err(spec_mismatched_selector(raw, backend))
        } else {
            spec_device_part(backend, t.skip(n as int), raw)
        },
        None => spec_device_part(backend, t, raw),
    }
}

/// Whether `r` is what a selector outcome stands for: the device, or a parse error with
/// that message.
pub open spec fn selector_result(
    r: core::result::Result<CubeClDevice, UfoError>,
    outcome: core::result::Result<CubeClDevice, Seq<char>>,
) -> bool {
    match outcome {
        Ok(d) => r == Ok::<CubeClDevice, UfoError>(d),
        Err(m) => r matches Err(UfoError::Parse(msg)) && msg@ == m,
    }
}

/// The error for a selector that names no device.
fn invalid_selector(raw: &str) -> (e: UfoError)
    ensures
        e matches UfoError::Parse(msg) && msg@ == spec_invalid_selector(raw@),
{
    let mut msg = String::new();
    push_str(&mut msg, "invalid device selector `");
    push_str(&mut msg, raw);
    push_str(&mut msg, "`");
    UfoError::Parse(msg)
}

/// Parses the index of a numbered device form; `raw` is the whole selector, for the message.
pub fn parse_device_index(value: &str, raw: &str) -> (r: Result<usize, UfoError>)
    ensures
        match spec_parse_usize(value@) {
            Some(i) => r == Ok::<usize, UfoError>(i),
            None => r matches Err(UfoError::Parse(msg)) && msg@ == spec_invalid_selector(raw@),
        },
{
    let v = chars_of(value);
    match parse_usize(v.as_slice(), 0, v.len()) {
        Some(i) => {
            assert(v@.subrange(0, v@.len() as int) =~= value@);
            Ok(i)
        },
        None => {
            assert(v@.subrange(0, v@.len() as int) =~= value@);
            Err(invalid_selector(raw))
        },
    }
}

/// Whether `v[a..b]` begins with `p`.
fn range_starts_with(v: &[char], a: usize, b: usize, p: &[char]) -> (r: bool)
    requires
        a <= b <= v.len(),
    ensures
        r == starts_with(v@.subrange(a as int, b as int), p@),
{
    if p.len() > b - a {
        return false;
    }
    let r = eq_range(v, a, a + p.len(), p);
    assert(v@.subrange(a as int, b as int).subrange(0, p@.len() as int) =~= v@.subrange(
        a as int,
        a + p.len(),
    ));
    r
}

/// The backend named by the prefix of `v[a..b]`, with the prefix's length.
fn selector_prefix(v: &[char], a: usize, b: usize) -> (r: Option<(CubeClBackend, usize)>)
    requires
        a <= b <= v.len(),
    ensures
        match spec_selector_prefix(v@.subrange(a as int, b as int)) {
            Some((backend, n)) => r == Some((backend, n as usize)) && n <= b - a,
            None => r is None,
        },
{
    let cpu = chars_of("cpu:");
    let vulkan = chars_of("vulkan:");
    let cuda = chars_of("cuda:");
    let hip = chars_of("hip:");
    let metal = chars_of("metal:");
    proof {
        reveal_strlit("cpu:");
        reveal_strlit("vulkan:");
        reveal_strlit("cuda:");
        reveal_strlit("hip:");
        reveal_strlit("metal:");
    }
    if range_starts_with(v, a, b, cpu.as_slice()) {
        Some((CubeClBackend::Cpu, 4))
    } else if range_starts_with(v, a, b, vulkan.as_slice()) {
        Some((CubeClBackend::Vulkan, 7))
    } else if range_starts_with(v, a, b, cuda.as_slice()) {
        Some((CubeClBackend::Cuda, 5))
    } else if range_starts_with(v, a, b, hip.as_slice()) {
        Some((CubeClBackend::Hip, 4))
    } else if range_starts_with(v, a, b, metal.as_slice()) {
        Some((CubeClBackend::Metal, 6))
    } else {
        None
    }
}

/// The backend that a selector names by its prefix, if it has one (the selector is not
/// trimmed first).
pub fn infer_backend_from_device_selector(selector: &str) -> (r: Option<CubeClBackend>)
    ensures
        r == (match spec_selector_prefix(selector@) {
            Some((backend, _n)) => Some(backend),
            None => None::<CubeClBackend>,
        }),
{
    let v = chars_of(selector);
    assert(v@.subrange(0, v@.len() as int) =~= selector@);
    match selector_prefix(v.as_slice(), 0, v.len()) {
        Some((backend, _n)) => Some(backend),
        None => None,
    }
}


/// The device that `v[a..b]`, the part of a selector after its prefix, names.
fn device_part(backend: CubeClBackend, v: &[char], a: usize, b: usize, raw: &str) -> (r: Result<
    CubeClDevice,
    UfoError,
>)
    requires
        a <= b <= v.len(),
    ensures
        selector_result(r, spec_device_part(backend, v@.subrange(a as int, b as int), raw@)),
{
    let ghost sel = v@.subrange(a as int, b as int);
    let default_lit = chars_of("default");
    let cpu_lit = chars_of("cpu");
    let zero_lit = chars_of("0");
    let discrete = chars_of("discrete:");
    let integrated = chars_of("integrated:");
    let virtual_lit = chars_of("virtual:");
    proof {
        reveal_strlit("discrete:");
        reveal_strlit("integrated:");
        reveal_strlit("virtual:");
    }
    if eq_ignore_ascii_case_range(v, a, b, default_lit.as_slice()) {
        return Ok(CubeClDevice::Default);
    }
    if eq_ignore_ascii_case_range(v, a, b, cpu_lit.as_slice()) || (eq_range(
        v,
        a,
        b,
        zero_lit.as_slice(),
    ) && backend == CubeClBackend::Cpu) {
        return Ok(CubeClDevice::WgpuCpu);
    }
    if range_starts_with(v, a, b, discrete.as_slice()) {
        let index = string_from_range(v, a + 9, b);
        assert(index@ =~= sel.skip(9));
        return match parse_device_index(index.as_str(), raw) {
            Ok(i) => Ok(CubeClDevice::DiscreteGpu(i)),
            Err(e) => Err(e),
        };
    }
    if range_starts_with(v, a, b, integrated.as_slice()) {
        let index = string_from_range(v, a + 11, b);
        assert(index@ =~= sel.skip(11));
        return match parse_device_index(index.as_str(), raw) {
            Ok(i) => Ok(CubeClDevice::IntegratedGpu(i)),
            Err(e) => Err(e),
        };
    }
    if range_starts_with(v, a, b, virtual_lit.as_slice()) {
        let index = string_from_range(v, a + 8, b);
        assert(index@ =~= sel.skip(8));
        return match parse_device_index(index.as_str(), raw) {
            Ok(i) => Ok(CubeClDevice::VirtualGpu(i)),
            Err(e) => Err(e),
        };
    }
    match parse_usize(v, a, b) {
        Some(i) => {
            if backend == CubeClBackend::Vulkan || backend == CubeClBackend::Metal {
                Ok(CubeClDevice::DiscreteGpu(i))
            } else {
                Ok(CubeClDevice::Index(i))
            }
        },
        None => Err(invalid_selector(raw)),
    }
}

/// The device that a `--device` selector names for the given backend; no selector names
/// the default device.
pub fn parse_device_selector(backend: CubeClBackend, device: Option<String>) -> (r: Result<
    CubeClDevice,
    UfoError,
>)
    ensures
        match device {
            None => r == Ok::<CubeClDevice, UfoError>(CubeClDevice::Default),
            Some(raw) => selector_result(r, spec_device_selector(backend, raw@)),
        },
{
    let raw = match device {
        None => {
            return Ok(CubeClDevice::Default);
        },
        Some(raw) => raw,
    };
    let v = chars_of(raw.as_str());
    assert(v@.subrange(0, v@.len() as int) =~= raw@);
    let (start, end) = trim_bounds(v.as_slice(), 0, v.len());
    let ghost t = v@.subrange(start as int, end as int);
    let mut a = start;
    match selector_prefix(v.as_slice(), start, end) {
        Some((parsed, n)) => {
            if backend != CubeClBackend::Auto && backend != parsed {
                let mut msg = String::new();
                push_str(&mut msg, "device selector `");
                push_str(&mut msg, raw.as_str());
                push_str(&mut msg, "` does not match backend ");
                push_str(&mut msg, backend_name(backend));
                return Err(UfoError::Parse(msg));
            }
            a = start + n;
            assert(v@.subrange(a as int, end as int) =~= t.skip(n as int));
        },
        None => {},
    }
    device_part(backend, v.as_slice(), a, end, raw.as_str())
}


/// The characters of an optional string.
pub open spec fn opt_chars(s: Option<String>) -> Option<Seq<char>> {
    match s {
        Some(t) => Some(t@),
        None => None,
    }
}

/// The backend a run uses: the one asked for, or, for `Auto`, the one that the device
/// selector's prefix names, if it names one.
pub open spec fn spec_resolved_backend(backend: CubeClBackend, device: Option<Seq<char>>) -> CubeClBackend {
    if backend == CubeClBackend::Auto {
        match device {
            Some(s) => match spec_selector_prefix(s) {
                Some((b, _n)) => b,
                None => backend,
            },
            None => backend,
        }
    } else {
        backend
    }
}

/// Whether `r` is what `run_options` gives for `backend`, the selector `device` and `turns`:
/// the backend is resolved from the selector's prefix when `Auto` is asked for, and the
/// selector then names the device for that backend.
pub open spec fn run_options_outcome(
    backend: CubeClBackend,
    device: Option<Seq<char>>,
    turns: u32,
    r: Result<CubeClTrackRunOptions, UfoError>,
) -> bool {
    let b = spec_resolved_backend(backend, device);
    match device {
        None => r == Ok::<CubeClTrackRunOptions, UfoError>(
            CubeClTrackRunOptions { turns, backend: b, device: CubeClDevice::Default },
        ),
        Some(raw) => match spec_device_selector(b, raw) {
            Ok(d) => r == Ok::<CubeClTrackRunOptions, UfoError>(
                CubeClTrackRunOptions { turns, backend: b, device: d },
            ),
            Err(m) => r matches Err(UfoError::Parse(msg)) && msg@ == m,
        },
    }
}

/// The prefix by which a selector names a backend (`Auto` has none).
pub open spec fn backend_prefix(b: CubeClBackend) -> Seq<char> {
    match b {
        CubeClBackend::Auto => seq![],
        CubeClBackend::Cpu => "cpu:"@,
        CubeClBackend::Vulkan => "vulkan:"@,
        CubeClBackend::Cuda => "cuda:"@,
        CubeClBackend::Hip => "hip:"@,
        CubeClBackend::Metal => "metal:"@,
    }
}

/// With the backend left to the selector (`Auto`), a selector that begins with the prefix
/// of a backend (`cpu:`, `vulkan:`, `cuda:`, `hip:`, `metal:`) runs on that backend, for
/// every rest of the selector and every turn count; a run that is planned keeps the turns.
/// The `cpu:0` selector in particular runs on the CPU runtime's device.
pub proof fn lemma_auto_backend_follows_prefix(
    b: CubeClBackend,
    rest: Seq<char>,
    turns: u32,
    r: Result<CubeClTrackRunOptions, UfoError>,
)
    requires
        b != CubeClBackend::Auto,
        run_options_outcome(CubeClBackend::Auto, Some(backend_prefix(b) + rest), turns, r),
    ensures
        r matches Ok(o) ==> o.backend == b && o.turns == turns,
        (b == CubeClBackend::Cpu && rest == "0"@) ==> r == Ok::<CubeClTrackRunOptions, UfoError>(
            CubeClTrackRunOptions {
                turns,
                backend: CubeClBackend::Cpu,
                device: CubeClDevice::WgpuCpu,
            },
        ),
{
    reveal_strlit("cpu:");
    reveal_strlit("vulkan:");
    reveal_strlit("cuda:");
    reveal_strlit("hip:");
    reveal_strlit("metal:");
    let p = backend_prefix(b);
    let s = p + rest;
    assert(s.subrange(0, p.len() as int) =~= p);
    assert(s.subrange(0, 4)[0] == s[0]);
    assert(s.subrange(0, 4)[1] == s[1]);
    assert(s[0] == p[0] && s[1] == p[1]);
    if b != CubeClBackend::Cpu {
        assert(!starts_with(s, "cpu:"@));
    }
    if b != CubeClBackend::Cpu && b != CubeClBackend::Vulkan {
        if s.len() >= 7 {
            assert(s.subrange(0, 7)[0] == s[0]);
        }
        assert(!starts_with(s, "vulkan:"@));
    }
    if b == CubeClBackend::Hip || b == CubeClBackend::Metal {
        if s.len() >= 5 {
            assert(s.subrange(0, 5)[0] == s[0]);
        }
        assert(!starts_with(s, "cuda:"@));
    }
    if b == CubeClBackend::Metal {
        assert(!starts_with(s, "hip:"@));
    }
    assert(spec_resolved_backend(CubeClBackend::Auto, Some(s)) == b);
    if b == CubeClBackend::Cpu && rest == "0"@ {
        reveal_strlit("0");
        reveal_strlit("default");
        reveal_strlit("cpu");
        assert(s.len() == 5);
        assert(s[0] == 'c' && s[4] == '0');
        assert(spec_trim(s) == s) by {
            lemma_trim_unchanged(s);
        }
        assert(s.skip(4) =~= "0"@);
        assert(!spec_eq_ignore_ascii_case("0"@, "default"@));
        assert(spec_device_part(CubeClBackend::Cpu, "0"@, s) == Ok::<CubeClDevice, Seq<char>>(
            CubeClDevice::WgpuCpu,
        ));
    }
}

/// The options of a tracking run from the backend and the device selector given on the
/// command line.
pub fn run_options(backend: CubeClBackend, device: Option<String>, turns: u32) -> (r: Result<
    CubeClTrackRunOptions,
    UfoError,
>)
    ensures
        ({
            let b = spec_resolved_backend(backend, opt_chars(device));
            match device {
                None => r == Ok::<CubeClTrackRunOptions, UfoError>(
                    CubeClTrackRunOptions { turns, backend: b, device: CubeClDevice::Default },
                ),
                Some(raw) => match spec_device_selector(b, raw@) {
                    Ok(d) => r == Ok::<CubeClTrackRunOptions, UfoError>(
                        CubeClTrackRunOptions { turns, backend: b, device: d },
                    ),
                    Err(m) => r matches Err(UfoError::Parse(msg)) && msg@ == m,
                },
            }
        }),
        run_options_outcome(backend, opt_chars(device), turns, r),
{
    let mut resolved = backend;
    if backend == CubeClBackend::Auto {
        match &device {
            Some(s) => match infer_backend_from_device_selector(s.as_str()) {
                Some(b) => {
                    resolved = b;
                },
                None => {},
            },
            None => {},
        }
    }
    match parse_device_selector(resolved, device) {
        Ok(d) => Ok(CubeClTrackRunOptions { turns, backend: resolved, device: d }),
        Err(e) => Err(e),
    }
}

/// The selector that the device list gives for a graphics adapter names the Vulkan backend
/// and selects that adapter's device again, whether the Vulkan backend is asked for or the
/// backend is left to the selector.
pub proof fn lemma_listed_selector_selects_device(adapters: Seq<(u16, usize)>, i: int)
    requires
        0 <= i < adapters.len(),
    ensures
        ({
            let entry = spec_list_devices(adapters)[i];
            &&& entry.0 == CubeClBackend::Vulkan
            &&& spec_resolved_backend(CubeClBackend::Auto, Some(entry.2)) == CubeClBackend::Vulkan
            &&& spec_device_selector(CubeClBackend::Vulkan, entry.2) == Ok::<
                CubeClDevice,
                Seq<char>,
            >(entry.1)
        }),
{
    let entry = spec_list_devices(adapters)[i];
    let device = entry.1;
    let suffix = spec_selector_suffix(device);
    let sel = entry.2;
    reveal_strlit("vulkan:");
    reveal_strlit("cpu:");
    reveal_strlit("default");
    reveal_strlit("cpu");
    reveal_strlit("0");
    reveal_strlit("discrete:");
    reveal_strlit("integrated:");
    reveal_strlit("virtual:");
    assert(sel == "vulkan:"@ + suffix);
    assert(sel.subrange(0, 7) =~= "vulkan:"@);
    assert(sel.skip(7) =~= suffix);
    assert(!starts_with(sel, "cpu:"@)) by {
        assert(sel.subrange(0, 4)[0] == 'v');
    }
    assert(spec_selector_prefix(sel) == Some((CubeClBackend::Vulkan, 7nat)));
    match device {
        CubeClDevice::Default => {
            assert(suffix =~= "default"@);
            assert(spec_eq_ignore_ascii_case(suffix, "default"@));
        },
        CubeClDevice::WgpuCpu => {
            assert(suffix =~= "cpu"@);
            assert(!spec_eq_ignore_ascii_case(suffix, "default"@));
            assert(spec_eq_ignore_ascii_case(suffix, "cpu"@));
        },
        CubeClDevice::DiscreteGpu(k) => {
            let digits = spec_decimal(k as nat);
            lemma_parse_decimal(k as nat);
            lemma_decimal_digits(k as nat);
            assert(suffix.subrange(0, 9) =~= "discrete:"@);
            assert(suffix.skip(9) =~= digits);
            assert(spec_is_digit(suffix.last()));
        },
        CubeClDevice::IntegratedGpu(k) => {
            let digits = spec_decimal(k as nat);
            lemma_parse_decimal(k as nat);
            lemma_decimal_digits(k as nat);
            assert(suffix.subrange(0, 11) =~= "integrated:"@);
            assert(suffix.skip(11) =~= digits);
            assert(suffix.subrange(0, 9)[0] == 'i');
            assert(spec_is_digit(suffix.last()));
        },
        CubeClDevice::VirtualGpu(k) => {
            let digits = spec_decimal(k as nat);
            lemma_parse_decimal(k as nat);
            lemma_decimal_digits(k as nat);
            assert(suffix.subrange(0, 8) =~= "virtual:"@);
            assert(suffix.skip(8) =~= digits);
            assert(suffix.subrange(0, 9)[0] == 'v');
            if suffix.len() >= 11 {
                assert(suffix.subrange(0, 11)[0] == 'v');
            }
            assert(spec_is_digit(suffix.last()));
        },
        CubeClDevice::Index(_k) => {
            assert(false);
        },
    }
    assert(sel.last() == suffix.last());
    lemma_trim_unchanged(sel);
}


/// Bit position of the op code in a kernel instruction header.
pub const HEADER_OP_SHIFT: u32 = 0;
/// Bit position of the pass flags in a kernel instruction header.
pub const HEADER_FLAGS_SHIFT: u32 = 8;
/// Bit position of the auxiliary count in a kernel instruction header.
pub const HEADER_AUX_SHIFT: u32 = 16;
/// Bit position of the argument count in a kernel instruction header.
pub const HEADER_ARGC_SHIFT: u32 = 24;
/// Mask of one header field after shifting.
pub const HEADER_FIELD_MASK: u32 = 0xff;

/// The kernel header of an instruction: op code, flags, auxiliary count and argument count
/// shifted to their places and or-ed together (each cut to 32 bits first).
pub open spec fn spec_encode_header(i: InstructionModel) -> u32 {
    ((i.op as u32) << HEADER_OP_SHIFT) | ((i.flags as u32) << HEADER_FLAGS_SHIFT) | ((
    i.aux as u32) << HEADER_AUX_SHIFT) | ((i.args.len() as u32) << HEADER_ARGC_SHIFT)
}

/// The kernel header of an instruction.
pub fn encode_header(instruction: &Instruction) -> (h: u32)
    ensures
        h == spec_encode_header(instruction@),
{
    ((instruction.op as u32) << HEADER_OP_SHIFT) | ((instruction.flags.bits as u32)
        << HEADER_FLAGS_SHIFT) | ((instruction.aux as u32) << HEADER_AUX_SHIFT) | ((
    instruction.args.len() as u32) << HEADER_ARGC_SHIFT)
}

/// The field of a header at the given bit position.
pub open spec fn spec_header_field(header: u32, shift: u32) -> u32 {
    (header >> shift) & HEADER_FIELD_MASK
}

/// The field of a header at the given bit position.
pub fn header_field(header: u32, shift: u32) -> (r: u32)
    requires
        shift < 32,
    ensures
        r == spec_header_field(header, shift),
{
    (header >> shift) & HEADER_FIELD_MASK
}

proof fn lemma_header_bits(op: u32, flags: u32, aux: u32, argc: u32)
    by (bit_vector)
    requires
        op < 256,
        flags < 256,
        aux < 256,
        argc < 256,
    ensures
        ({
            let h = (op << 0u32) | (flags << 8u32) | (aux << 16u32) | (argc << 24u32);
            &&& (h >> 0u32) & 0xffu32 == op
            &&& (h >> 8u32) & 0xffu32 == flags
            &&& (h >> 16u32) & 0xffu32 == aux
            &&& (h >> 24u32) & 0xffu32 == argc
        }),
{
}

/// Each field read from an instruction's header is the field that was written, when the op
/// code, the auxiliary count and the argument count each fit in eight bits.
pub proof fn lemma_header_fields(i: InstructionModel)
    requires
        i.op < 256,
        i.aux < 256,
        i.args.len() < 256,
    ensures
        spec_header_field(spec_encode_header(i), HEADER_OP_SHIFT) == i.op,
        spec_header_field(spec_encode_header(i), HEADER_FLAGS_SHIFT) == i.flags,
        spec_header_field(spec_encode_header(i), HEADER_AUX_SHIFT) == i.aux,
        spec_header_field(spec_encode_header(i), HEADER_ARGC_SHIFT) == i.args.len(),
{
    lemma_header_bits(i.op as u32, i.flags as u32, i.aux as u32, i.args.len() as u32);
}

/// A program laid out for the tracking kernel: one header and one argument offset per
/// instruction, and all arguments in single and in double precision.
#[derive(Clone, Debug)]
pub struct DecodedProgram {
    pub headers: Vec<u32>,
    pub arg_offsets: Vec<u32>,
    pub args32: Vec<u32>,
    pub args64: Vec<u64>,
}

/// The number of arguments of all instructions of `s`.
pub open spec fn arg_count(s: Seq<Instruction>) -> nat
    decreases s.len(),
{
    if s.len() == 0 {
        0
    } else {
        arg_count(s.drop_last()) + s.last().args@.len()
    }
}

/// The single-precision arguments of all instructions of `s`, in order.
pub open spec fn args32_of(s: Seq<Instruction>) -> Seq<u32>
    decreases s.len(),
{
    if s.len() == 0 {
        seq![]
    } else {
        args32_of(s.drop_last()) + s.last().args@.map_values(|a: ArgValue| a.bits32)
    }
}

/// The double-precision arguments of all instructions of `s`, in order.
pub open spec fn args64_of(s: Seq<Instruction>) -> Seq<u64>
    decreases s.len(),
{
    if s.len() == 0 {
        seq![]
    } else {
        args64_of(s.drop_last()) + s.last().args@.map_values(|a: ArgValue| a.bits64)
    }
}

proof fn lemma_args_len(s: Seq<Instruction>)
    ensures
        args32_of(s).len() == arg_count(s),
        args64_of(s).len() == arg_count(s),
    decreases s.len(),
{
    if s.len() > 0 {
        lemma_args_len(s.drop_last());
    }
}

/// Lays out `instructions` for the tracking kernel: the header of each instruction, the
/// offset of its first argument (the number of arguments before it, cut to 32 bits), and the
/// arguments of all instructions in order.
pub fn decode_program(instructions: &[Instruction]) -> (p: DecodedProgram)
    ensures
        p.headers@.len() == instructions@.len(),
        p.arg_offsets@.len() == instructions@.len(),
        forall|k: int|
            0 <= k < instructions@.len() ==> #[trigger] p.headers@[k] == spec_encode_header(
                instructions@[k]@,
            ),
        forall|k: int|
            0 <= k < instructions@.len() ==> #[trigger] p.arg_offsets@[k] == arg_count(
                instructions@.take(k),
            ) as u32,
        p.args32@ == args32_of(instructions@),
        p.args64@ == args64_of(instructions@),
{
    let mut headers: Vec<u32> = Vec::new();
    let mut arg_offsets: Vec<u32> = Vec::new();
    let mut args32: Vec<u32> = Vec::new();
    let mut args64: Vec<u64> = Vec::new();
    let mut k: usize = 0;
    while k < instructions.len()
        invariant
            k <= instructions@.len(),
            headers@.len() == k,
            arg_offsets@.len() == k,
            forall|j: int|
                0 <= j < k ==> #[trigger] headers@[j] == spec_encode_header(instructions@[j]@),
            forall|j: int|
                0 <= j < k ==> #[trigger] arg_offsets@[j] == arg_count(instructions@.take(j))
                    as u32,
            args32@ == args32_of(instructions@.take(k as int)),
            args64@ == args64_of(instructions@.take(k as int)),
        decreases instructions@.len() - k,
    {
        let instruction = &instructions[k];
        headers.push(encode_header(instruction));
        proof {
            lemma_args_len(instructions@.take(k as int));
        }
        arg_offsets.push(args32.len() as u32);
        let ghost before32 = args32@;
        let ghost before64 = args64@;
        let mut a: usize = 0;
        while a < instruction.args.len()
            invariant
                a <= instruction.args@.len(),
                args32@ == before32 + instruction.args@.take(a as int).map_values(
                    |v: ArgValue| v.bits32,
                ),
                args64@ == before64 + instruction.args@.take(a as int).map_values(
                    |v: ArgValue| v.bits64,
                ),
            decreases instruction.args@.len() - a,
        {
            args32.push(instruction.args[a].bits32);
            args64.push(instruction.args[a].bits64);
            a = a + 1;
            assert(args32@ =~= before32 + instruction.args@.take(a as int).map_values(
                |v: ArgValue| v.bits32,
            ));
            assert(args64@ =~= before64 + instruction.args@.take(a as int).map_values(
                |v: ArgValue| v.bits64,
            ));
        }
        proof {
            let t = instructions@.take(k + 1);
            assert(t.drop_last() =~= instructions@.take(k as int));
            assert(instruction.args@.take(a as int) =~= instruction.args@);
        }
        k = k + 1;
    }
    assert(instructions@.take(k as int) =~= instructions@);
    DecodedProgram { headers, arg_offsets, args32, args64 }
}


proof fn lemma_args_prefix(s: Seq<Instruction>, n: int)
    requires
        0 <= n <= s.len(),
    ensures
        args32_of(s.take(n)).len() <= args32_of(s).len(),
        args64_of(s.take(n)).len() <= args64_of(s).len(),
        forall|i: int| 0 <= i < args32_of(s.take(n)).len() ==> args32_of(s)[i] == #[trigger] args32_of(s.take(n))[i],
        forall|i: int| 0 <= i < args64_of(s.take(n)).len() ==> args64_of(s)[i] == #[trigger] args64_of(s.take(n))[i],
    decreases s.len(),
{
    if n == s.len() {
        assert(s.take(n) =~= s);
    } else {
        let t = s.drop_last();
        lemma_args_prefix(t, n);
        assert(t.take(n) =~= s.take(n));
    }
}

/// The kernel finds argument `j` of instruction `k` at position `offset + j` of both
/// argument arrays, where `offset` is the number of arguments before instruction `k` (the
/// offset that `decode_program` records for it).
pub proof fn lemma_decoded_argument(s: Seq<Instruction>, k: int, j: int)
    requires
        0 <= k < s.len(),
        0 <= j < s[k].args@.len(),
    ensures
        args32_of(s)[arg_count(s.take(k)) + j] == s[k].args@[j].bits32,
        args64_of(s)[arg_count(s.take(k)) + j] == s[k].args@[j].bits64,
{
    let t = s.take(k + 1);
    assert(t.drop_last() =~= s.take(k));
    assert(t.last() == s[k]);
    lemma_args_len(s.take(k));
    lemma_args_prefix(s, k + 1);
    let i = arg_count(s.take(k)) + j;
    assert(args32_of(t)[i] == s[k].args@[j].bits32);
    assert(args64_of(t)[i] == s[k].args@[j].bits64);
}

} // verus!
