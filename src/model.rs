//! The catalog of recognition models and how their sizes are shown.
use crate::text::append_char;
use vstd::prelude::*;
use vstd::string::StringExecFns;

verus! {

pub const MIB: u64 = 1024 * 1024;

pub const GIB: u64 = 1024 * 1024 * 1024;

/// Where model files are downloaded from; the file name follows.
pub const MODEL_URL_PREFIX: &'static str = "https://huggingface.co/ggerganov/whisper.cpp/resolve/main/";

/// The languages a model recognises.
#[derive(Debug, Clone, Copy, PartialEq, Eq, Structural)]
pub enum LanguageSupport {
    English,
    Multilingual,
}

impl LanguageSupport {
    pub fn label(self) -> (r: &'static str)
        ensures
            r@ == (match self {
                LanguageSupport::English => "english"@,
                LanguageSupport::Multilingual => "multilingual"@,
            }),
    {
        match self {
            LanguageSupport::English => "english",
            LanguageSupport::Multilingual => "multilingual",
        }
    }
}

/// A model of the catalog.
#[derive(Debug, Clone)]
pub struct ModelInfo {
    pub name: &'static str,
    pub filename: &'static str,
    pub url: String,
    pub size_bytes: u64,
    pub description: &'static str,
    pub languages: LanguageSupport,
}

/// Number of models in the catalog.
pub open spec fn catalog_len() -> int {
    6
}

/// Name, file name and size of the catalog's `i`-th model.
pub open spec fn catalog_entry(i: int) -> (Seq<char>, Seq<char>, u64) {
    if i == 0 {
        ("turbo"@, "ggml-large-v3-turbo.bin"@, (3 * GIB / 2) as u64)
    } else if i == 1 {
        ("tiny"@, "ggml-tiny.bin"@, (75 * MIB) as u64)
    } else if i == 2 {
        ("base"@, "ggml-base.bin"@, (142 * MIB) as u64)
    } else if i == 3 {
        ("small"@, "ggml-small.bin"@, (466 * MIB) as u64)
    } else if i == 4 {
        ("medium"@, "ggml-medium.bin"@, (3 * GIB / 2) as u64)
    } else {
        ("large"@, "ggml-large.bin"@, (29 * GIB / 10) as u64)
    }
}

/// `info` is the catalog's `i`-th model, with its download URL.
pub open spec fn is_catalog_entry(info: ModelInfo, i: int) -> bool {
    &&& info.name@ == catalog_entry(i).0
    &&& info.filename@ == catalog_entry(i).1
    &&& info.size_bytes == catalog_entry(i).2
    &&& info.url@ == MODEL_URL_PREFIX@ + catalog_entry(i).1
    &&& info.languages == LanguageSupport::Multilingual
}

/// Whether `name` names a model of the catalog.
pub open spec fn in_catalog(name: Seq<char>) -> bool {
    exists|i: int| 0 <= i < catalog_len() && #[trigger] catalog_entry(i).0 == name
}

fn model_from_spec(
    name: &'static str,
    filename: &'static str,
    size_bytes: u64,
    description: &'static str,
) -> (r: ModelInfo)
    ensures
        r.name == name,
        r.filename == filename,
        r.size_bytes == size_bytes,
        r.description == description,
        r.url@ == MODEL_URL_PREFIX@ + filename@,
        r.languages == LanguageSupport::Multilingual,
{
    let mut url = String::new();
    url.append(MODEL_URL_PREFIX);
    url.append(filename);
    assert(url@ =~= MODEL_URL_PREFIX@ + filename@);
    ModelInfo { name, filename, url, size_bytes, description, languages: LanguageSupport::Multilingual }
}

/// All models of the catalog, in catalog order.
pub fn available_models() -> (r: Vec<ModelInfo>)
    ensures
        r@.len() == catalog_len(),
        forall|i: int| 0 <= i < catalog_len() ==> is_catalog_entry(#[trigger] r@[i], i),
{
    let mut v: Vec<ModelInfo> = Vec::new();
    v.push(model_from_spec("turbo", "ggml-large-v3-turbo.bin", (3 * GIB) / 2, "Fast large-v3 turbo; strong speed/quality balance."));
    v.push(model_from_spec("tiny", "ggml-tiny.bin", 75 * MIB, "Smallest and fastest; lowest accuracy."));
    v.push(model_from_spec("base", "ggml-base.bin", 142 * MIB, "Compact model with better accuracy than tiny."));
    v.push(model_from_spec("small", "ggml-small.bin", 466 * MIB, "Good accuracy; moderate CPU/RAM usage."));
    v.push(model_from_spec("medium", "ggml-medium.bin", (3 * GIB) / 2, "High accuracy; slower on CPU."));
    v.push(model_from_spec("large", "ggml-large.bin", (29 * GIB) / 10, "Best accuracy; largest and slowest."));
    assert forall|i: int| 0 <= i < catalog_len() implies is_catalog_entry(#[trigger] v@[i], i) by {
        if i == 0 {
        } else if i == 1 {
        } else if i == 2 {
        } else if i == 3 {
        } else if i == 4 {
        } else {
        }
    }
    v
}

/// No model of the catalog has this name.
#[derive(Debug, Clone)]
pub struct UnknownModel {
    pub name: String,
}

/// The names of all models, separated by ", ".
pub open spec fn model_names_text() -> Seq<char> {
    "turbo, tiny, base, small, medium, large"@
}

impl UnknownModel {
    /// The message shown for this error.
    pub fn message(&self) -> (r: String)
        ensures
            r@ == "unknown model '"@ + self.name@ + "'. Try: "@ + model_names_text(),
    {
        let mut m = String::new();
        m.append("unknown model '");
        m.append(self.name.as_str());
        m.append("'. Try: ");
        m.append("turbo, tiny, base, small, medium, large");
        m
    }
}

fn same_text(a: &str, b: &str) -> (r: bool)
    ensures
        r == (a@ == b@),
{
    let n = a.unicode_len();
    if n != b.unicode_len() {
        return false;
    }
    let mut i: usize = 0;
    while i < n
        invariant
            n == a@.len() == b@.len(),
            i <= n,
            forall|j: int| 0 <= j < i ==> a@[j] == b@[j],
        decreases n - i,
    {
        if a.get_char(i) != b.get_char(i) {
            return false;
        }
        i = i + 1;
    }
    assert(a@ =~= b@);
    true
}

/// The catalog entry named `name`.
pub fn model_info(name: &str) -> (r: Result<ModelInfo, UnknownModel>)
    ensures
        match r {
            Ok(info) => exists|i: int| 0 <= i < catalog_len() && catalog_entry(i).0 == name@ && #[trigger] is_catalog_entry(info, i),
            Err(e) => !in_catalog(name@) && e.name@ == name@,
        },
{
    let mut models = available_models();
    let mut i: usize = 0;
    while i < models.len()
        invariant
            models@.len() == catalog_len(),
            forall|k: int| 0 <= k < catalog_len() ==> is_catalog_entry(#[trigger] models@[k], k),
            i <= models@.len(),
            forall|k: int| 0 <= k < i ==> #[trigger] catalog_entry(k).0 != name@,
        decreases models.len() - i,
    {
        if same_text(models[i].name, name) {
            let info = models.remove(i);
            return Ok(info);
        }
        i = i + 1;
    }
    Err(UnknownModel { name: name.to_owned() })
}

/// The decimal digit `d`.
pub open spec fn digit_char(d: int) -> char {
    if d == 0 {
        '0'
    } else if d == 1 {
        '1'
    } else if d == 2 {
        '2'
    } else if d == 3 {
        '3'
    } else if d == 4 {
        '4'
    } else if d == 5 {
        '5'
    } else if d == 6 {
        '6'
    } else if d == 7 {
        '7'
    } else if d == 8 {
        '8'
    } else {
        '9'
    }
}

/// The decimal digits of `n`, without leading zeros.
pub open spec fn decimal(n: nat) -> Seq<char>
    decreases n,
{
    if n < 10 {
        seq![digit_char(n as int)]
    } else {
        decimal(n / 10).push(digit_char((n % 10) as int))
    }
}

/// `num / den`, rounded to nearest with ties to even.
pub open spec fn round_half_even(num: nat, den: nat) -> nat {
    let q = num / den;
    let r = num % den;
    if 2 * r > den || (2 * r == den && q % 2 == 1) {
        q + 1
    } else {
        q
    }
}

/// The size label: whole gigabytes from ten GiB up, gigabytes with one
/// decimal from one GiB up, else whole megabytes (binary units throughout).
pub open spec fn size_label(bytes: nat) -> Seq<char> {
    if bytes >= GIB {
        if bytes >= 10 * GIB {
            decimal(round_half_even(bytes, GIB as nat)) + " GB"@
        } else {
            let t = round_half_even(bytes * 10, GIB as nat);
            decimal(t / 10) + "."@ + decimal(t % 10) + " GB"@
        }
    } else {
        decimal(round_half_even(bytes, MIB as nat)) + " MB"@
    }
}

fn digit(d: u64) -> (c: char)
    requires
        d < 10,
    ensures
        c == digit_char(d as int),
{
    if d == 0 {
        '0'
    } else if d == 1 {
        '1'
    } else if d == 2 {
        '2'
    } else if d == 3 {
        '3'
    } else if d == 4 {
        '4'
    } else if d == 5 {
        '5'
    } else if d == 6 {
        '6'
    } else if d == 7 {
        '7'
    } else if d == 8 {
        '8'
    } else {
        '9'
    }
}

fn append_decimal(s: &mut String, n: u64)
    ensures
        final(s)@ == old(s)@ + decimal(n as nat),
    decreases n,
{
    if n < 10 {
        append_char(s, digit(n));
        assert(final(s)@ =~= old(s)@ + decimal(n as nat));
    } else {
        append_decimal(s, n / 10);
        append_char(s, digit(n % 10));
        assert(final(s)@ =~= old(s)@ + decimal(n as nat));
    }
}

fn rounded_div(num: u64, den: u64) -> (r: u64)
    requires
        den > 0,
    ensures
        r == round_half_even(num as nat, den as nat),
{
    let q = num / den;
    let r = num % den;
    if r > den - r || (r == den - r && q % 2 == 1) {
        assert(q + 1 <= u64::MAX) by (nonlinear_arith)
            requires
                q == num / den,
                r == num % den,
                r > 0,
                den > 0,
                num <= u64::MAX,
        {
            assert(num == den * q + r);
        }
        q + 1
    } else {
        q
    }
}

/// The size of a model as shown to a person, e.g. "466 MB" or "1.5 GB".
pub fn format_size(bytes: u64) -> (r: String)
    ensures
        r@ == size_label(bytes as nat),
{
    let mut out = String::new();
    if bytes >= GIB {
        if bytes >= 10 * GIB {
            append_decimal(&mut out, rounded_div(bytes, GIB));
            out.append(" GB");
        } else {
            let t = rounded_div(bytes * 10, GIB);
            append_decimal(&mut out, t / 10);
            out.append(".");
            append_decimal(&mut out, t % 10);
            out.append(" GB");
        }
    } else {
        append_decimal(&mut out, rounded_div(bytes, MIB));
        out.append(" MB");
    }
    assert(out@ =~= size_label(bytes as nat));
    out
}

} // verus!
