//! The sizes that segmentation models come in, and which one suits a frame.

use vstd::prelude::*;

use crate::frame::{Dims, FrameSize};
use crate::text::push_decimal;

verus! {

#[derive(Clone, Copy, Debug, PartialEq, Eq, Hash, PartialOrd, Ord, Structural)]
pub struct ModelVariant {
    pub width: u32,
    pub height: u32,
}

/// How the aspect ratio of a model compares with that of a frame.
#[derive(Clone, Copy, Debug, PartialEq, Eq, Structural)]
pub enum Skew {
    /// The wider of the two aspect ratios, divided by the other.
    Ratio { num: u64, den: u64 },
    /// The model has no width or no height.
    Degenerate,
    /// The model has neither.
    Undefined,
}

/// Two aspect ratios count as the same if they differ by no more than a
/// thousandth on a logarithmic scale: by a factor of `exp(1/1000)`, here
/// `TOLERANCE_NUM / TOLERANCE_DEN`.
pub const TOLERANCE_NUM: u64 = 1_001_000_500_166_708_341;

pub const TOLERANCE_DEN: u64 = 1_000_000_000_000_000_000;

impl ModelVariant {
    /// How the aspect ratio of this model compares with that of a frame.
    pub open spec fn skew_spec(self, frame: Dims) -> Skew {
        let (a, b) = (self.width * frame.height, self.height * frame.width);
        if self.width == 0 && self.height == 0 {
            Skew::Undefined
        } else if self.width == 0 || self.height == 0 {
            Skew::Degenerate
        } else if a >= b {
            Skew::Ratio { num: a as u64, den: b as u64 }
        } else {
            Skew::Ratio { num: b as u64, den: a as u64 }
        }
    }

    pub open spec fn pixel_count(self) -> int {
        self.width * self.height
    }

    pub open spec fn fits(self, frame: Dims) -> bool {
        self.width <= frame.width && self.height <= frame.height
    }

    /// The name of the model's file.
    pub open spec fn file_name_spec(self) -> Seq<char> {
        "rvm_mobilenetv3_fp16_"@ + crate::text::decimal(self.width as nat) + "x"@
            + crate::text::decimal(self.height as nat) + "_static.onnx"@
    }

    pub fn new(width: u32, height: u32) -> (variant: Self)
        ensures
            variant == (ModelVariant { width, height }),
    {
        ModelVariant { width, height }
    }

    /// The same model on its side.
    pub fn portrait(self) -> (variant: Self)
        ensures
            variant == (ModelVariant { width: self.height, height: self.width }),
    {
        ModelVariant { width: self.height, height: self.width }
    }

    /// How the aspect ratio of this model compares with that of a frame.
    pub fn skew(self, frame: FrameSize) -> (skew: Skew)
        ensures
            skew == self.skew_spec(frame@),
    {
        if self.width == 0 && self.height == 0 {
            return Skew::Undefined;
        }
        if self.width == 0 || self.height == 0 {
            return Skew::Degenerate;
        }
        let (w, h): (u64, u64) = (self.width as u64, self.height as u64);
        let (fw, fh): (u64, u64) = (frame.width() as u64, frame.height() as u64);
        proof {
            lemma_areas_fit(w as int, fh as int);
            lemma_areas_fit(h as int, fw as int);
        }
        let (a, b): (u64, u64) = (w * fh, h * fw);
        if a >= b {
            Skew::Ratio { num: a, den: b }
        } else {
            Skew::Ratio { num: b, den: a }
        }
    }

    pub fn pixels(self) -> (pixels: u64)
        ensures
            pixels == self.pixel_count(),
    {
        proof {
            lemma_areas_fit(self.width as int, self.height as int);
        }
        self.width as u64 * self.height as u64
    }

    pub fn fits_within(self, frame: FrameSize) -> (fits: bool)
        ensures
            fits == self.fits(frame@),
    {
        self.width <= frame.width() && self.height <= frame.height()
    }

    pub fn rvm_file_name(self) -> (name: String)
        ensures
            name@ == self.file_name_spec(),
    {
        let mut name = String::new();
        name.append("rvm_mobilenetv3_fp16_");
        push_decimal(&mut name, self.width as u64);
        name.append("x");
        push_decimal(&mut name, self.height as u64);
        name.append("_static.onnx");
        proof {
            assert(name@ =~= self.file_name_spec());
        }
        name
    }
}

proof fn lemma_areas_fit(a: int, b: int)
    by (nonlinear_arith)
    requires
        0 <= a <= u32::MAX,
        0 <= b <= u32::MAX,
    ensures
        0 <= a * b <= u64::MAX,
{
}

/// The landscape sizes of the recurrent model, by aspect ratio.
pub open spec fn landscape_sizes() -> Seq<ModelVariant> {
    seq![
        ModelVariant { width: 640, height: 360 },
        ModelVariant { width: 960, height: 540 },
        ModelVariant { width: 1024, height: 576 },
        ModelVariant { width: 1280, height: 720 },
        ModelVariant { width: 1600, height: 900 },
        ModelVariant { width: 1920, height: 1080 },
        ModelVariant { width: 2560, height: 1440 },
        ModelVariant { width: 640, height: 400 },
        ModelVariant { width: 960, height: 600 },
        ModelVariant { width: 1280, height: 800 },
        ModelVariant { width: 1440, height: 900 },
        ModelVariant { width: 1680, height: 1050 },
        ModelVariant { width: 1920, height: 1200 },
        ModelVariant { width: 2560, height: 1600 },
        ModelVariant { width: 640, height: 480 },
        ModelVariant { width: 800, height: 600 },
        ModelVariant { width: 960, height: 720 },
        ModelVariant { width: 1024, height: 768 },
        ModelVariant { width: 1280, height: 960 },
        ModelVariant { width: 1440, height: 1080 },
        ModelVariant { width: 1600, height: 1200 },
        ModelVariant { width: 1920, height: 1440 },
        ModelVariant { width: 2560, height: 1920 },
    ]
}

/// Every size of the recurrent model: each landscape size and, behind it, the
/// same on its side.
pub open spec fn all_sizes() -> Seq<ModelVariant> {
    Seq::new(
        46,
        |i: int|
            {
                let landscape = landscape_sizes()[i / 2];
                if i % 2 == 0 {
                    landscape
                } else {
                    ModelVariant { width: landscape.height, height: landscape.width }
                }
            },
    )
}

/// The landscape sizes of the recurrent model.
pub fn landscape_rvm_variants() -> (variants: Vec<ModelVariant>)
    ensures
        variants@ == landscape_sizes(),
{
    let variants = vec![
        ModelVariant::new(640, 360),
        ModelVariant::new(960, 540),
        ModelVariant::new(1024, 576),
        ModelVariant::new(1280, 720),
        ModelVariant::new(1600, 900),
        ModelVariant::new(1920, 1080),
        ModelVariant::new(2560, 1440),
        ModelVariant::new(640, 400),
        ModelVariant::new(960, 600),
        ModelVariant::new(1280, 800),
        ModelVariant::new(1440, 900),
        ModelVariant::new(1680, 1050),
        ModelVariant::new(1920, 1200),
        ModelVariant::new(2560, 1600),
        ModelVariant::new(640, 480),
        ModelVariant::new(800, 600),
        ModelVariant::new(960, 720),
        ModelVariant::new(1024, 768),
        ModelVariant::new(1280, 960),
        ModelVariant::new(1440, 1080),
        ModelVariant::new(1600, 1200),
        ModelVariant::new(1920, 1440),
        ModelVariant::new(2560, 1920),
    ];
    proof {
        assert(variants@ =~= landscape_sizes());
    }
    variants
}

/// Every size of the recurrent model.
pub fn all_rvm_variants() -> (variants: Vec<ModelVariant>)
    ensures
        variants@ == all_sizes(),
{
    let landscape = landscape_rvm_variants();
    let mut variants: Vec<ModelVariant> = Vec::new();
    for i in 0..landscape.len()
        invariant
            landscape@ == landscape_sizes(),
            variants@.len() == 2 * i,
            forall|j: int| 0 <= j < 2 * i ==> #[trigger] variants@[j] == all_sizes()[j],
    {
        variants.push(landscape[i]);
        variants.push(landscape[i].portrait());
    }
    proof {
        assert(variants@ =~= all_sizes());
    }
    variants
}

/// Whether a list of file names holds a name.
pub open spec fn names_file(files: Seq<String>, name: Seq<char>) -> bool {
    exists|i: int| 0 <= i < files.len() && #[trigger] files[i]@ == name
}

fn has_file(files: &[String], name: &String) -> (found: bool)
    ensures
        found == names_file(files@, name@),
{
    for i in 0..files.len()
        invariant
            forall|j: int| 0 <= j < i ==> #[trigger] files@[j]@ != name@,
    {
        if files[i] == *name {
            return true;
        }
    }
    false
}

/// The sizes whose files are among the files of the model directory, in the
/// order of the catalogue.
pub fn available_rvm_variants(files: &[String]) -> (variants: Vec<ModelVariant>)
    ensures
        variants@ == all_sizes().filter(
            |v: ModelVariant| names_file(files@, v.file_name_spec()),
        ),
{
    let all = all_rvm_variants();
    let ghost keep = |v: ModelVariant| names_file(files@, v.file_name_spec());
    let mut variants: Vec<ModelVariant> = Vec::new();
    for i in 0..all.len()
        invariant
            all@ == all_sizes(),
            keep == (|v: ModelVariant| names_file(files@, v.file_name_spec())),
            variants@ == all@.take(i as int).filter(keep),
    {
        proof {
            assert(all@.take(i + 1).drop_last() =~= all@.take(i as int));
            reveal_with_fuel(Seq::filter, 1);
        }
        let name = all[i].rvm_file_name();
        if has_file(files, &name) {
            variants.push(all[i]);
        }
    }
    proof {
        assert(all@.take(all@.len() as int) =~= all@);
    }
    variants
}

#[derive(Clone, Copy, Debug, Default, PartialEq, Eq, Hash, Structural)]
pub enum VariantPreference {
    #[default]
    Auto,
    Fixed(ModelVariant),
}

/// The first aspect ratio is at least as close as the second.
pub open spec fn as_close(first: Skew, second: Skew) -> bool {
    match (first, second) {
        (Skew::Ratio { num: n1, den: d1 }, Skew::Ratio { num: n2, den: d2 }) => n1 * d2 <= n2
            * d1,
        _ => false,
    }
}

/// The first aspect ratio is as close as the second, give or take the
/// tolerance.
pub open spec fn about_as_close(first: Skew, second: Skew) -> bool {
    match (first, second) {
        (Skew::Ratio { num: n1, den: d1 }, Skew::Ratio { num: n2, den: d2 }) => (n1 * d2)
            * TOLERANCE_DEN <= (n2 * d1) * TOLERANCE_NUM,
        _ => false,
    }
}

/// Whether a list holds a model with a width and a height.
pub open spec fn has_ratio(frame: Dims, available: Seq<ModelVariant>) -> bool {
    exists|i: int|
        0 <= i < available.len() && (#[trigger] available[i]).skew_spec(frame) is Ratio
}

/// Whether a model of a list suits the aspect ratio of a frame: no model of the
/// list is closer by more than the tolerance. Models without a width or a height
/// are infinitely far off, and suit a frame only where there are no others.
pub open spec fn suits(frame: Dims, available: Seq<ModelVariant>, i: int) -> bool {
    let skew = available[i].skew_spec(frame);
    if has_ratio(frame, available) {
        &&& skew is Ratio
        &&& forall|j: int|
            0 <= j < available.len() && (#[trigger] available[j]).skew_spec(frame) is Ratio
                ==> about_as_close(skew, available[j].skew_spec(frame))
    } else {
        skew is Degenerate
    }
}

/// Whether a list holds a model that suits a frame and fits inside it.
pub open spec fn some_fits(frame: Dims, available: Seq<ModelVariant>) -> bool {
    exists|i: int|
        0 <= i < available.len() && #[trigger] suits(frame, available, i) && available[i].fits(
            frame,
        )
}

/// Whether a model of a list is the one that is picked for a frame: among those
/// that suit it, the largest that fits inside the frame (the last of several),
/// or else the smallest (the first of several).
pub open spec fn picked(frame: Dims, available: Seq<ModelVariant>, i: int) -> bool {
    let v = available[i];
    &&& 0 <= i < available.len()
    &&& suits(frame, available, i)
    &&& if some_fits(frame, available) {
        &&& v.fits(frame)
        &&& forall|j: int|
            0 <= j < available.len() && #[trigger] suits(frame, available, j)
                && available[j].fits(frame) ==> available[j].pixel_count() < v.pixel_count() || (
            available[j].pixel_count() == v.pixel_count() && j <= i)
    } else {
        forall|j: int|
            0 <= j < available.len() && #[trigger] suits(frame, available, j)
                ==> available[j].pixel_count() > v.pixel_count() || (available[j].pixel_count()
                == v.pixel_count() && i <= j)
    }
}

/// Whether the preferred model is on the list.
pub open spec fn wish_granted(
    available: Seq<ModelVariant>,
    preference: VariantPreference,
) -> bool {
    preference matches VariantPreference::Fixed(wanted) && available.contains(wanted)
}

/// Picks the model for a frame: the preferred one where it is available, else
/// one that suits the frame.
pub fn select_variant(
    frame: FrameSize,
    available: &[ModelVariant],
    preference: VariantPreference,
) -> (selected: Option<ModelVariant>)
    ensures
        match selected {
            Some(v) => if wish_granted(available@, preference) {
                preference == VariantPreference::Fixed(v)
            } else {
                exists|i: int|
                    #[trigger] picked(frame@, available@, i) && v == available@[i]
            },
            None => !wish_granted(available@, preference) && forall|i: int|
                0 <= i < available@.len() ==> !#[trigger] suits(frame@, available@, i),
        },
{
    if let VariantPreference::Fixed(wanted) = preference {
        if contains(available, wanted) {
            return Some(wanted);
        }
    }
    let best = closest(frame, available);
    let mut fitting: Option<usize> = None;
    let mut larger: Option<usize> = None;
    let mut i: usize = 0;
    while i < available.len()
        invariant
            0 <= i <= available@.len(),
            best matches Some(b) ==> {
                &&& has_ratio(frame@, available@)
                &&& b is Ratio
                &&& exists|k: int|
                    0 <= k < available@.len() && b == (#[trigger] available@[k]).skew_spec(
                        frame@,
                    )
                &&& forall|k: int|
                    0 <= k < available@.len() && (#[trigger] available@[k]).skew_spec(
                        frame@,
                    ) is Ratio ==> as_close(b, available@[k].skew_spec(frame@))
            },
            best is None ==> !has_ratio(frame@, available@),
            match fitting {
                Some(f) => {
                    &&& f < i
                    &&& suits(frame@, available@, f as int)
                    &&& available@[f as int].fits(frame@)
                    &&& forall|j: int|
                        0 <= j < i && #[trigger] suits(frame@, available@, j)
                            && available@[j].fits(frame@) ==> available@[j].pixel_count()
                            < available@[f as int].pixel_count() || (
                        available@[j].pixel_count() == available@[f as int].pixel_count() && j
                            <= f)
                },
                None => forall|j: int|
                    0 <= j < i && #[trigger] suits(frame@, available@, j)
                        ==> !available@[j].fits(frame@),
            },
            match larger {
                Some(l) => {
                    &&& l < i
                    &&& suits(frame@, available@, l as int)
                    &&& forall|j: int|
                        0 <= j < i && #[trigger] suits(frame@, available@, j)
                            && !available@[j].fits(frame@) ==> available@[j].pixel_count()
                            > available@[l as int].pixel_count() || (
                        available@[j].pixel_count() == available@[l as int].pixel_count() && l
                            <= j)
                },
                None => forall|j: int|
                    0 <= j < i && #[trigger] suits(frame@, available@, j)
                        ==> available@[j].fits(frame@),
            },
        decreases available@.len() - i,
    {
        let v = available[i];
        if suits_best(frame, v, best, Ghost(available@), Ghost(i as int)) {
            let pixels: u64 = v.pixels();
            if v.fits_within(frame) {
                let better: bool = match fitting {
                    Some(f) => pixels >= available[f].pixels(),
                    None => true,
                };
                if better {
                    fitting = Some(i);
                }
            } else {
                let better: bool = match larger {
                    Some(l) => pixels < available[l].pixels(),
                    None => true,
                };
                if better {
                    larger = Some(i);
                }
            }
        }
        i = i + 1;
    }
    match fitting {
        Some(f) => {
            assert(picked(frame@, available@, f as int));
            Some(available[f])
        },
        None => match larger {
            Some(l) => {
                assert(!some_fits(frame@, available@));
                assert(picked(frame@, available@, l as int));
                Some(available[l])
            },
            None => None,
        },
    }
}

fn contains(available: &[ModelVariant], wanted: ModelVariant) -> (found: bool)
    ensures
        found == available@.contains(wanted),
{
    for i in 0..available.len()
        invariant
            forall|j: int| 0 <= j < i ==> #[trigger] available@[j] != wanted,
    {
        if available[i] == wanted {
            assert(available@[i as int] == wanted);
            return true;
        }
    }
    false
}

/// The closest aspect ratio on a list.
fn closest(frame: FrameSize, available: &[ModelVariant]) -> (best: Option<Skew>)
    ensures
        match best {
            Some(b) => {
                &&& has_ratio(frame@, available@)
                &&& b is Ratio
                &&& exists|k: int|
                    0 <= k < available@.len() && b == (#[trigger] available@[k]).skew_spec(
                        frame@,
                    )
                &&& forall|k: int|
                    0 <= k < available@.len() && (#[trigger] available@[k]).skew_spec(
                        frame@,
                    ) is Ratio ==> as_close(b, available@[k].skew_spec(frame@))
            },
            None => !has_ratio(frame@, available@),
        },
{
    let mut best: Option<Skew> = None;
    let mut i: usize = 0;
    let _: u32 = frame.width();
    while i < available.len()
        invariant
            frame@.valid(),
            i <= available@.len(),
            match best {
                Some(b) => {
                    &&& b is Ratio
                    &&& exists|k: int|
                        0 <= k < i && b == (#[trigger] available@[k]).skew_spec(frame@)
                    &&& forall|k: int|
                        0 <= k < i && (#[trigger] available@[k]).skew_spec(frame@) is Ratio
                            ==> as_close(b, available@[k].skew_spec(frame@))
                },
                None => forall|k: int|
                    0 <= k < i ==> !((#[trigger] available@[k]).skew_spec(frame@) is Ratio),
            },
        decreases available@.len() - i,
    {
        let skew = available[i].skew(frame);
        let closer: bool = match (skew, best) {
            (Skew::Ratio { num, den }, Some(Skew::Ratio { num: best_num, den: best_den })) => {
                proof {
                    lemma_products_fit(num as int, best_den as int);
                    lemma_products_fit(best_num as int, den as int);
                }
                (num as u128) * (best_den as u128) < (best_num as u128) * (den as u128)
            },
            (Skew::Ratio { num: _, den: _ }, _) => true,
            _ => false,
        };
        proof {
            assert forall|k: int|
                0 <= k <= i && (#[trigger] available@[k]).skew_spec(frame@) is Ratio implies
                as_close(
                if closer {
                    skew
                } else {
                    best.unwrap()
                },
                available@[k].skew_spec(frame@),
            ) by {
                lemma_ratio_positive(available@[k], frame@);
                lemma_ratio_positive(available@[i as int], frame@);
                if closer && k < i {
                    if best is Some {
                        let b = choose|m: int|
                            0 <= m < i && best.unwrap() == (#[trigger] available@[m]).skew_spec(
                                frame@,
                            );
                        lemma_ratio_positive(available@[b], frame@);
                        lemma_closer_still(skew, best.unwrap(), available@[k].skew_spec(frame@));
                    }
                }
            }
        }
        if closer {
            best = Some(skew);
        }
        i = i + 1;
    }
    best
}

proof fn lemma_products_fit(a: int, b: int)
    by (nonlinear_arith)
    requires
        0 <= a <= u64::MAX,
        0 <= b <= u64::MAX,
    ensures
        0 <= a * b <= u128::MAX,
{
}

proof fn lemma_ratio_positive(v: ModelVariant, frame: Dims)
    requires
        frame.valid(),
    ensures
        v.skew_spec(frame) matches Skew::Ratio { num, den } ==> 0 < den <= num,
{
    lemma_areas_fit(v.width as int, frame.height);
    lemma_areas_fit(v.height as int, frame.width);
    if v.width > 0 && v.height > 0 {
        assert(0 < v.width * frame.height && 0 < v.height * frame.width) by (nonlinear_arith)
            requires
                0 < v.width,
                0 < v.height,
                0 < frame.width,
                0 < frame.height,
        ;
    }
}

/// What is closer than something close is closer than the rest.
proof fn lemma_closer_still(first: Skew, second: Skew, third: Skew)
    requires
        as_close(first, second),
        as_close(second, third),
        second matches Skew::Ratio { num, den } ==> 0 < den && 0 < num,
        third matches Skew::Ratio { num, den } ==> 0 < den,
        first matches Skew::Ratio { num, den } ==> 0 < den,
    ensures
        as_close(first, third),
{
    if let (
        Skew::Ratio { num: n1, den: d1 },
        Skew::Ratio { num: n2, den: d2 },
        Skew::Ratio { num: n3, den: d3 },
    ) = (first, second, third) {
        lemma_cross(n1 as int, d1 as int, n2 as int, d2 as int, n3 as int, d3 as int, 1, 1);
    }
}

proof fn lemma_cross(n1: int, d1: int, n2: int, d2: int, n3: int, d3: int, q: int, p: int)
    requires
        0 < d2,
        0 <= d1,
        0 <= d3,
        0 <= p,
        (n1 * d2) * q <= (n2 * d1) * p,
        n2 * d3 <= n3 * d2,
    ensures
        (n1 * d3) * q <= (n3 * d1) * p,
{
    let (x, y) = ((n1 * d2) * q, (n2 * d1) * p);
    assert(x * d3 <= y * d3) by (nonlinear_arith)
        requires
            x <= y,
            0 <= d3,
    ;
    let w = d1 * p;
    assert(0 <= w) by (nonlinear_arith)
        requires
            0 <= d1,
            0 <= p,
            w == d1 * p,
    ;
    let (a, b) = (n2 * d3, n3 * d2);
    assert(a * w <= b * w) by (nonlinear_arith)
        requires
            a <= b,
            0 <= w,
    ;
    assert(y * d3 == a * w) by (nonlinear_arith)
        requires
            y == (n2 * d1) * p,
            a == n2 * d3,
            w == d1 * p,
    ;
    assert(x * d3 == ((n1 * d3) * q) * d2) by (nonlinear_arith)
        requires
            x == (n1 * d2) * q,
    ;
    assert(b * w == ((n3 * d1) * p) * d2) by (nonlinear_arith)
        requires
            b == n3 * d2,
            w == d1 * p,
    ;
    let (l, r) = ((n1 * d3) * q, (n3 * d1) * p);
    assert(l <= r) by (nonlinear_arith)
        requires
            l * d2 <= r * d2,
            0 < d2,
    ;
}

/// Whether a model of a list suits a frame, given the closest aspect ratio on
/// the list.
fn suits_best(
    frame: FrameSize,
    v: ModelVariant,
    best: Option<Skew>,
    Ghost(available): Ghost<Seq<ModelVariant>>,
    Ghost(i): Ghost<int>,
) -> (result: bool)
    requires
        0 <= i < available.len(),
        v == available[i],
        best matches Some(b) ==> {
            &&& has_ratio(frame@, available)
            &&& b is Ratio
            &&& exists|k: int|
                0 <= k < available.len() && b == (#[trigger] available[k]).skew_spec(frame@)
            &&& forall|k: int|
                0 <= k < available.len() && (#[trigger] available[k]).skew_spec(frame@) is Ratio
                    ==> as_close(b, available[k].skew_spec(frame@))
        },
        best is None ==> !has_ratio(frame@, available),
    ensures
        result == suits(frame@, available, i),
{
    let skew = v.skew(frame);
    let _: u32 = frame.width();
    match best {
        None => match skew {
            Skew::Degenerate => true,
            _ => false,
        },
        Some(b) => match (skew, b) {
            (Skew::Ratio { num, den }, Skew::Ratio { num: best_num, den: best_den }) => {
                proof {
                    lemma_products_fit(num as int, best_den as int);
                    lemma_products_fit(best_num as int, den as int);
                }
                let result: bool = product_le(
                    (num as u128) * (best_den as u128),
                    TOLERANCE_DEN,
                    (best_num as u128) * (den as u128),
                    TOLERANCE_NUM,
                );
                proof {
                    let k = choose|m: int|
                        0 <= m < available.len() && b == (#[trigger] available[m]).skew_spec(
                            frame@,
                        );
                    lemma_ratio_positive(available[k], frame@);
                    lemma_ratio_positive(v, frame@);
                    if result {
                        assert forall|j: int|
                            0 <= j < available.len() && (#[trigger] available[j]).skew_spec(
                                frame@,
                            ) is Ratio implies about_as_close(
                            skew,
                            available[j].skew_spec(frame@),
                        ) by {
                            lemma_ratio_positive(available[j], frame@);
                            if let Skew::Ratio { num: n3, den: d3 } = available[j].skew_spec(
                                frame@,
                            ) {
                                lemma_cross(
                                    num as int,
                                    den as int,
                                    best_num as int,
                                    best_den as int,
                                    n3 as int,
                                    d3 as int,
                                    TOLERANCE_DEN as int,
                                    TOLERANCE_NUM as int,
                                );
                            }
                        }
                    } else {
                        assert(!about_as_close(skew, available[k].skew_spec(frame@)));
                    }
                }
                result
            },
            _ => false,
        },
    }
}

/// Compares two products that may take more than 128 bits.
fn product_le(a: u128, p: u64, b: u128, q: u64) -> (result: bool)
    ensures
        result == (a * p <= b * q),
{
    let (a_high, a_low) = wide_product(a, p);
    let (b_high, b_low) = wide_product(b, q);
    a_high < b_high || (a_high == b_high && a_low <= b_low)
}

/// A product as its bits above the lowest 64 and the lowest 64.
fn wide_product(a: u128, p: u64) -> (product: (u128, u64))
    ensures
        a * p == product.0 * 0x1_0000_0000_0000_0000 + product.1,
{
    let base: u128 = 0x1_0000_0000_0000_0000;
    let (high, low): (u128, u128) = (a / base, a % base);
    let factor: u128 = p as u128;
    proof {
        assert(0 <= low * factor <= 0xffff_ffff_ffff_ffff * 0xffff_ffff_ffff_ffff)
            by (nonlinear_arith)
            requires
                0 <= low <= 0xffff_ffff_ffff_ffff,
                0 <= factor <= 0xffff_ffff_ffff_ffff,
        ;
        assert(0 <= high * factor <= 0xffff_ffff_ffff_ffff * 0xffff_ffff_ffff_ffff)
            by (nonlinear_arith)
            requires
                0 <= high <= 0xffff_ffff_ffff_ffff,
                0 <= factor <= 0xffff_ffff_ffff_ffff,
        ;
        assert(a * p == (high * factor) * base + low * factor) by (nonlinear_arith)
            requires
                a == high * base + low,
                factor == p,
        ;
    }
    let lower: u128 = low * factor;
    (high * factor + lower / base, (lower % base) as u64)
}

/// At most one place on a list is picked.
pub proof fn law_the_pick_is_unique(
    frame: Dims,
    available: Seq<ModelVariant>,
    i: int,
    j: int,
)
    requires
        picked(frame, available, i),
        picked(frame, available, j),
    ensures
        i == j,
{
}

/// Where some model has the aspect ratio of the frame and fits inside it, the
/// pick has about that aspect ratio, fits inside the frame and is no smaller.
pub proof fn law_a_matching_model_that_fits_is_never_beaten_by_a_smaller_one(
    frame: Dims,
    available: Seq<ModelVariant>,
    i: int,
    j: int,
)
    requires
        frame.valid(),
        picked(frame, available, i),
        0 <= j < available.len(),
        available[j].width > 0,
        available[j].height > 0,
        available[j].width * frame.height == available[j].height * frame.width,
        available[j].fits(frame),
    ensures
        available[i].fits(frame),
        available[i].pixel_count() >= available[j].pixel_count(),
        about_as_close(available[i].skew_spec(frame), available[j].skew_spec(frame)),
{
    lemma_ratio_positive(available[j], frame);
    assert forall|k: int|
        0 <= k < available.len() && (#[trigger] available[k]).skew_spec(frame) is Ratio implies
        about_as_close(available[j].skew_spec(frame), available[k].skew_spec(frame)) by {
        lemma_ratio_positive(available[k], frame);
        if let (Skew::Ratio { num: n1, den: d1 }, Skew::Ratio { num: n2, den: d2 }) = (
            available[j].skew_spec(frame),
            available[k].skew_spec(frame),
        ) {
            assert(n1 == d1);
            let (x, y) = (n1 * d2, n2 * d1);
            assert(0 <= x <= y) by (nonlinear_arith)
                requires
                    n1 == d1,
                    0 < d2 <= n2,
                    0 < d1,
                    x == n1 * d2,
                    y == n2 * d1,
            ;
            assert(x * TOLERANCE_DEN <= y * TOLERANCE_NUM) by (nonlinear_arith)
                requires
                    0 <= x <= y,
                    TOLERANCE_DEN <= TOLERANCE_NUM,
            ;
        }
    }
    assert(available[j].skew_spec(frame) is Ratio);
    assert(suits(frame, available, j));
}

/// Something is picked wherever some model has a width and a height.
pub proof fn law_a_usable_model_is_always_found(frame: Dims, available: Seq<ModelVariant>)
    requires
        frame.valid(),
        has_ratio(frame, available),
    ensures
        exists|i: int| 0 <= i < available.len() && #[trigger] suits(frame, available, i),
{
    let i = lemma_closest_exists(frame, available, available.len() as int);
    assert forall|j: int|
        0 <= j < available.len() && (#[trigger] available[j]).skew_spec(frame) is Ratio implies
        about_as_close(available[i].skew_spec(frame), available[j].skew_spec(frame)) by {
        lemma_ratio_positive(available[j], frame);
        lemma_ratio_positive(available[i], frame);
        if let (Skew::Ratio { num: n1, den: d1 }, Skew::Ratio { num: n2, den: d2 }) = (
            available[i].skew_spec(frame),
            available[j].skew_spec(frame),
        ) {
            let (x, y) = (n1 * d2, n2 * d1);
            assert(0 <= x) by (nonlinear_arith)
                requires
                    x == n1 * d2,
                    0 < n1,
                    0 < d2,
            ;
            assert(x * TOLERANCE_DEN <= y * TOLERANCE_NUM) by (nonlinear_arith)
                requires
                    0 <= x <= y,
                    TOLERANCE_DEN <= TOLERANCE_NUM,
            ;
        }
    }
    assert(suits(frame, available, i));
}

proof fn lemma_closest_exists(frame: Dims, available: Seq<ModelVariant>, len: int) -> (best: int)
    requires
        frame.valid(),
        0 <= len <= available.len(),
        exists|i: int|
            0 <= i < len && (#[trigger] available[i]).skew_spec(frame) is Ratio,
    ensures
        0 <= best < len,
        available[best].skew_spec(frame) is Ratio,
        forall|j: int|
            0 <= j < len && (#[trigger] available[j]).skew_spec(frame) is Ratio ==> as_close(
                available[best].skew_spec(frame),
                available[j].skew_spec(frame),
            ),
    decreases len,
{
    let last = len - 1;
    let here = available[last].skew_spec(frame);
    if exists|i: int| 0 <= i < last && (#[trigger] available[i]).skew_spec(frame) is Ratio {
        let before = lemma_closest_exists(frame, available, last);
        let best = available[before].skew_spec(frame);
        lemma_ratio_positive(available[before], frame);
        lemma_ratio_positive(available[last], frame);
        if here is Ratio && !as_close(best, here) {
            assert forall|j: int|
                0 <= j < len && (#[trigger] available[j]).skew_spec(frame) is Ratio implies
                as_close(here, available[j].skew_spec(frame)) by {
                lemma_ratio_positive(available[j], frame);
                if j < last {
                    lemma_closer_still(here, best, available[j].skew_spec(frame));
                }
            }
            last
        } else {
            before
        }
    } else {
        lemma_ratio_positive(available[last], frame);
        last
    }
}

} // verus!
