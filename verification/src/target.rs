//! The platforms that prebuilt libraries exist for, the optional features
//! that can be linked in, and the linker directives a build emits for them.
use vstd::prelude::*;

use crate::text::{contains, str_contains, views, trim, trim_string};
use crate::paths::{
    join, join_path, cat, path_parent, parent_of,
};

verus! {

/// The Apple slices of a release.
#[derive(Debug, Clone, Copy, PartialEq, Eq, Structural)]
pub enum AppleTarget {
    IosArm64,
    SimulatorArm64,
    MacOsArm64,
}

/// The Android architectures of a release.
#[derive(Debug, Clone, Copy, PartialEq, Eq, Structural)]
pub enum AndroidTarget {
    AndroidX86,
    AndroidArm64,
}

/// The platform a build is for.
#[derive(Debug, Clone, Copy, PartialEq, Eq, Structural)]
pub enum Target {
    Android(AndroidTarget),
    Apple(AppleTarget),
}

/// Which platform check turned a target triple down.
#[derive(Debug, Clone, Copy, PartialEq, Eq, Structural)]
pub enum UnsupportedPlatform {
    /// Neither an Android nor an Apple triple.
    Any,
    /// An Android triple of an architecture without a prebuilt library.
    Android,
    /// An Apple triple of a platform without a prebuilt library.
    Apple,
}

/// The Apple slice that a target triple selects: `sim` before `ios` before
/// `macos` or `darwin`.
pub open spec fn apple_target_of(t: Seq<char>) -> Option<AppleTarget> {
    if contains(t, "sim"@) {
        Some(AppleTarget::SimulatorArm64)
    } else if contains(t, "ios"@) {
        Some(AppleTarget::IosArm64)
    } else if contains(t, "macos"@) || contains(t, "darwin"@) {
        Some(AppleTarget::MacOsArm64)
    } else {
        None
    }
}

/// The Android architecture that a target triple selects: `aarch64` before
/// `x86_64`.
pub open spec fn android_target_of(t: Seq<char>) -> Option<AndroidTarget> {
    if contains(t, "aarch64"@) {
        Some(AndroidTarget::AndroidArm64)
    } else if contains(t, "x86_64"@) {
        Some(AndroidTarget::AndroidX86)
    } else {
        None
    }
}

/// The platform that a target triple selects: `android` before `apple`, and
/// within each the choice above; or the check that turns it down.
pub open spec fn target_of(t: Seq<char>) -> Result<Target, UnsupportedPlatform> {
    if contains(t, "android"@) {
        match android_target_of(t) {
            Some(a) => Ok(Target::Android(a)),
            None => Err(UnsupportedPlatform::Android),
        }
    } else if contains(t, "apple"@) {
        match apple_target_of(t) {
            Some(a) => Ok(Target::Apple(a)),
            None => Err(UnsupportedPlatform::Apple),
        }
    } else {
        Err(UnsupportedPlatform::Any)
    }
}

impl AppleTarget {
    /// The Apple slice for the target triple `target`, if it names one.
    pub fn from_triple(target: &str) -> (res: Option<Self>)
        ensures
            res == apple_target_of(target@),
    {
        if str_contains(target, "sim") {
            Some(AppleTarget::SimulatorArm64)
        } else if str_contains(target, "ios") {
            Some(AppleTarget::IosArm64)
        } else if str_contains(target, "macos") || str_contains(target, "darwin") {
            Some(AppleTarget::MacOsArm64)
        } else {
            None
        }
    }

    /// The Apple slice for the target triple `target`, which must name one.
    pub fn new(target: &str) -> (res: Self)
        requires
            apple_target_of(target@) is Some,
        ensures
            apple_target_of(target@) == Some(res),
    {
        match Self::from_triple(target) {
            Some(t) => t,
            None => AppleTarget::MacOsArm64,
        }
    }

    /// The directory of this slice in an unpacked release.
    fn dir_name(&self) -> (res: String)
        ensures
            res@ == apple_dir_name(*self),
    {
        match self {
            AppleTarget::IosArm64 => String::from_str("ios-arm64"),
            AppleTarget::SimulatorArm64 => String::from_str("ios-arm64-simulator"),
            AppleTarget::MacOsArm64 => String::from_str("macos-arm64"),
        }
    }
}

/// The directory of an Apple slice in an unpacked release.
pub open spec fn apple_dir_name(t: AppleTarget) -> Seq<char> {
    match t {
        AppleTarget::IosArm64 => "ios-arm64"@,
        AppleTarget::SimulatorArm64 => "ios-arm64-simulator"@,
        AppleTarget::MacOsArm64 => "macos-arm64"@,
    }
}

/// The directory of an Android architecture in an unpacked release.
pub open spec fn android_dir_name(t: AndroidTarget) -> Seq<char> {
    match t {
        AndroidTarget::AndroidX86 => "x86_64"@,
        AndroidTarget::AndroidArm64 => "aarch64"@,
    }
}

impl AndroidTarget {
    /// The Android architecture for the target triple `target`, if it names
    /// one.
    pub fn from_triple(target: &str) -> (res: Option<Self>)
        ensures
            res == android_target_of(target@),
    {
        if str_contains(target, "aarch64") {
            Some(AndroidTarget::AndroidArm64)
        } else if str_contains(target, "x86_64") {
            Some(AndroidTarget::AndroidX86)
        } else {
            None
        }
    }

    /// The Android architecture for the target triple `target`, which must
    /// name one.
    pub fn new(target: &str) -> (res: Self)
        requires
            android_target_of(target@) is Some,
        ensures
            android_target_of(target@) == Some(res),
    {
        match Self::from_triple(target) {
            Some(t) => t,
            None => AndroidTarget::AndroidArm64,
        }
    }

    /// The directory of this architecture in an unpacked release.
    fn dir_name(&self) -> (res: String)
        ensures
            res@ == android_dir_name(*self),
    {
        match self {
            AndroidTarget::AndroidX86 => String::from_str("x86_64"),
            AndroidTarget::AndroidArm64 => String::from_str("aarch64"),
        }
    }
}

impl Target {
    /// The platform for the target triple `target`, or the check that turns
    /// it down.
    pub fn from_triple(target: &str) -> (res: Result<Self, UnsupportedPlatform>)
        ensures
            res == target_of(target@),
    {
        if str_contains(target, "android") {
            match AndroidTarget::from_triple(target) {
                Some(a) => Ok(Target::Android(a)),
                None => Err(UnsupportedPlatform::Android),
            }
        } else if str_contains(target, "apple") {
            match AppleTarget::from_triple(target) {
                Some(a) => Ok(Target::Apple(a)),
                None => Err(UnsupportedPlatform::Apple),
            }
        } else {
            Err(UnsupportedPlatform::Any)
        }
    }

    /// The platform for the target triple `target`, which must name a
    /// supported one.
    pub fn new(target: &str) -> (res: Self)
        requires
            target_of(target@) is Ok,
        ensures
            target_of(target@) == Ok::<Target, UnsupportedPlatform>(res),
    {
        match Self::from_triple(target) {
            Ok(t) => t,
            Err(_) => Target::Apple(AppleTarget::MacOsArm64),
        }
    }
}

impl UnsupportedPlatform {
    /// The report of the refusal: `Unsupported prebuilt platform: <target>`,
    /// with `android` or `apple` before `platform` where that check refused it.
    pub fn message(&self, target: &str) -> (res: String)
        ensures
            res@ == unsupported_message(*self, target@),
    {
        let mut res = match self {
            UnsupportedPlatform::Any => String::from_str("Unsupported prebuilt platform: "),
            UnsupportedPlatform::Android => String::from_str(
                "Unsupported prebuilt android platform: ",
            ),
            UnsupportedPlatform::Apple => String::from_str("Unsupported prebuilt apple platform: "),
        };
        res.append(target);
        res
    }
}

pub open spec fn unsupported_message(u: UnsupportedPlatform, target: Seq<char>) -> Seq<char> {
    match u {
        UnsupportedPlatform::Any => "Unsupported prebuilt platform: "@ + target,
        UnsupportedPlatform::Android => "Unsupported prebuilt android platform: "@ + target,
        UnsupportedPlatform::Apple => "Unsupported prebuilt apple platform: "@ + target,
    }
}


/// An optional part of the runtime that a build links in.
#[derive(Debug, Clone, Copy, Hash, PartialEq, Eq, Structural)]
pub enum Feature {
    XNNPack,
    CoreML,
    OptimisedKernels,
    QuantisedKernels,
    Accelerate,
    LlmKernels,
    Llm,
    TorchAO,
    Threadpool,
}

/// The cargo features a build enables.
#[derive(Debug, Clone, Copy, PartialEq, Eq, Default)]
pub struct EnabledFeatures {
    pub xnnpack: bool,
    pub optimised_kernels: bool,
    pub torch_ao: bool,
    pub quantised_kernels: bool,
    pub llm: bool,
    pub llm_kernels: bool,
    pub coreml: bool,
}

/// A set of features, kept in the order they were first added.
pub struct FeatureSet {
    members: Vec<Feature>,
}

impl View for FeatureSet {
    type V = Set<Feature>;

    closed spec fn view(&self) -> Set<Feature> {
        self.members@.to_set()
    }
}

impl FeatureSet {
    #[verifier::type_invariant]
    spec fn members_distinct(self) -> bool {
        self.members@.no_duplicates()
    }

    /// The members, in the order they were first added.
    pub closed spec fn order(&self) -> Seq<Feature> {
        self.members@
    }

    /// The empty set.
    pub fn new() -> (res: Self)
        ensures
            res.order() == Seq::<Feature>::empty(),
            res@ == Set::<Feature>::empty(),
    {
        let res = FeatureSet { members: Vec::new() };
        assert(res.members@.to_set() =~= Set::<Feature>::empty());
        res
    }

    /// Whether `f` is a member.
    pub fn contains(&self, f: Feature) -> (res: bool)
        ensures
            res == self@.contains(f),
            res == self.order().contains(f),
    {
        let mut i: usize = 0;
        while i < self.members.len()
            invariant
                i <= self.members@.len(),
                forall|j: int| 0 <= j < i ==> self.members@[j] != f,
            decreases self.members@.len() - i,
        {
            if self.members[i] == f {
                assert(self.members@[i as int] == f);
                return true;
            }
            i = i + 1;
        }
        false
    }

    /// Adds `f`; a member already there keeps its place.
    pub fn insert(&mut self, f: Feature)
        ensures
            final(self)@ == old(self)@.insert(f),
            final(self).order() == if old(self).order().contains(f) {
                old(self).order()
            } else {
                old(self).order().push(f)
            },
    {
        proof {
            use_type_invariant(&*self);
        }
        if !self.contains(f) {
            let ghost before = self.members@;
            let mut members = Vec::new();
            std::mem::swap(&mut members, &mut self.members);
            members.push(f);
            assert(members@ == before.push(f));
            assert(members@.no_duplicates()) by {
                assert forall|i: int, j: int|
                    0 <= i < members@.len() && 0 <= j < members@.len() && i != j implies members@[i]
                    != members@[j] by {
                    if i < before.len() && j < before.len() {
                    } else if i == before.len() {
                        assert(members@[j] == before[j]);
                        assert(before.contains(before[j]));
                    } else {
                        assert(members@[i] == before[i]);
                        assert(before.contains(before[i]));
                    }
                }
            }
            self.members = members;
            proof {
                before.lemma_push_to_set_commute(f);
            }
        } else {
            assert(self.members@.to_set() =~= self.members@.to_set().insert(f));
        }
    }

    /// The members, each once, in the order they were first added.
    pub fn members(&self) -> (res: &Vec<Feature>)
        ensures
            res@ == self.order(),
            res@.no_duplicates(),
            res@.to_set() == self@,
    {
        proof {
            use_type_invariant(self);
        }
        &self.members
    }
}

/// `s` without repeats, each kept where it first occurs.
pub open spec fn first_occurrences(s: Seq<Feature>) -> Seq<Feature>
    decreases s.len(),
{
    if s.len() == 0 {
        seq![]
    } else {
        let init = first_occurrences(s.drop_last());
        if init.contains(s.last()) {
            init
        } else {
            init.push(s.last())
        }
    }
}

/// `g` when `on`, else nothing.
pub open spec fn group_if(on: bool, g: Seq<Feature>) -> Seq<Feature> {
    if on {
        g
    } else {
        seq![]
    }
}

/// The features requested for a build, in the order they are added, repeats
/// included. An Android build requests none: its library comes with every
/// feature linked in.
pub open spec fn requested_features(target: Target, enabled: EnabledFeatures) -> Seq<Feature> {
    if target is Android {
        seq![]
    } else {
        concat_groups(feature_groups(enabled))
    }
}

/// The feature groups of an Apple build, each with whether its cargo feature
/// is enabled: XNNPack and its thread pool, Accelerate and the optimised
/// kernels, the TorchAO kernels, the quantised kernels, the LLM runner, the
/// LLM kernels, and Accelerate and CoreML.
pub open spec fn feature_groups(enabled: EnabledFeatures) -> Seq<(bool, Seq<Feature>)> {
    seq![
        (enabled.xnnpack, seq![Feature::XNNPack, Feature::Threadpool]),
        (enabled.optimised_kernels, seq![Feature::Accelerate, Feature::OptimisedKernels]),
        (enabled.torch_ao, seq![Feature::TorchAO]),
        (enabled.quantised_kernels, seq![Feature::QuantisedKernels]),
        (enabled.llm, seq![Feature::Llm]),
        (enabled.llm_kernels, seq![Feature::LlmKernels]),
        (enabled.coreml, seq![Feature::Accelerate, Feature::CoreML]),
    ]
}

/// The features of the enabled groups, group after group.
pub open spec fn concat_groups(groups: Seq<(bool, Seq<Feature>)>) -> Seq<Feature>
    decreases groups.len(),
{
    if groups.len() == 0 {
        seq![]
    } else {
        concat_groups(groups.drop_last()) + group_if(groups.last().0, groups.last().1)
    }
}

/// The views of a table of feature groups.
pub open spec fn group_views(v: Seq<(bool, Vec<Feature>)>) -> Seq<(bool, Seq<Feature>)> {
    v.map_values(|g: (bool, Vec<Feature>)| (g.0, g.1@))
}

proof fn lemma_first_occurrences_push(s: Seq<Feature>, f: Feature)
    ensures
        first_occurrences(s.push(f)) == if first_occurrences(s).contains(f) {
            first_occurrences(s)
        } else {
            first_occurrences(s).push(f)
        },
{
    assert(s.push(f).drop_last() =~= s);
}

/// Adds `fs` one after the other.
fn insert_each(set: &mut FeatureSet, fs: &Vec<Feature>, Ghost(added): Ghost<Seq<Feature>>)
    requires
        old(set).order() == first_occurrences(added),
        old(set)@ == added.to_set(),
    ensures
        final(set).order() == first_occurrences(added + fs@),
        final(set)@ == (added + fs@).to_set(),
{
    let mut i: usize = 0;
    while i < fs.len()
        invariant
            i <= fs@.len(),
            set.order() == first_occurrences(added + fs@.take(i as int)),
            set@ == (added + fs@.take(i as int)).to_set(),
        decreases fs@.len() - i,
    {
        let ghost prefix = added + fs@.take(i as int);
        set.insert(fs[i]);
        proof {
            lemma_first_occurrences_push(prefix, fs@[i as int]);
            assert(added + fs@.take(i + 1) =~= prefix.push(fs@[i as int]));
            prefix.lemma_push_to_set_commute(fs@[i as int]);
        }
        i = i + 1;
    }
    assert(fs@.take(fs@.len() as int) =~= fs@);
}

/// Adds the features of `g` one after the other when `on`.
fn add_group(set: &mut FeatureSet, on: bool, g: &Vec<Feature>, Ghost(added): Ghost<Seq<Feature>>)
    requires
        old(set).order() == first_occurrences(added),
        old(set)@ == added.to_set(),
    ensures
        final(set).order() == first_occurrences(added + group_if(on, g@)),
        final(set)@ == (added + group_if(on, g@)).to_set(),
{
    if on {
        insert_each(set, g, Ghost(added));
    } else {
        assert(added + group_if(on, g@) =~= added);
    }
}

impl Feature {
    /// The features to link for `target`: none for Android, whose library
    /// comes with all of them; for Apple, XNNPack and its thread pool,
    /// Accelerate and the optimised kernels, the TorchAO kernels, the quantised
    /// kernels, the LLM runner, the LLM kernels, and Accelerate and CoreML, each
    /// group when its cargo feature is enabled, in that order.
    pub fn get_features(target: &Target, enabled: &EnabledFeatures) -> (res: FeatureSet)
        ensures
            res@ == requested_features(*target, *enabled).to_set(),
            res.order() == first_occurrences(requested_features(*target, *enabled)),
    {
        let mut features = FeatureSet::new();
        let ghost mut added: Seq<Feature> = seq![];
        proof {
            assert(added.to_set() =~= Set::<Feature>::empty());
        }
        if let Target::Android(_) = target {
            return features;
        }
        let groups: Vec<(bool, Vec<Feature>)> = vec![
            (enabled.xnnpack, vec![Feature::XNNPack, Feature::Threadpool]),
            (enabled.optimised_kernels, vec![Feature::Accelerate, Feature::OptimisedKernels]),
            (enabled.torch_ao, vec![Feature::TorchAO]),
            (enabled.quantised_kernels, vec![Feature::QuantisedKernels]),
            (enabled.llm, vec![Feature::Llm]),
            (enabled.llm_kernels, vec![Feature::LlmKernels]),
            (enabled.coreml, vec![Feature::Accelerate, Feature::CoreML]),
        ];
        assert(groups@.len() == 7);
        assert(groups@[0].1@ =~= seq![Feature::XNNPack, Feature::Threadpool]);
        assert(groups@[1].1@ =~= seq![Feature::Accelerate, Feature::OptimisedKernels]);
        assert(groups@[2].1@ =~= seq![Feature::TorchAO]);
        assert(groups@[3].1@ =~= seq![Feature::QuantisedKernels]);
        assert(groups@[4].1@ =~= seq![Feature::Llm]);
        assert(groups@[5].1@ =~= seq![Feature::LlmKernels]);
        assert(groups@[6].1@ =~= seq![Feature::Accelerate, Feature::CoreML]);
        assert(group_views(groups@) =~= feature_groups(*enabled));
        let mut i: usize = 0;
        while i < groups.len()
            invariant
                i <= groups@.len(),
                features.order() == first_occurrences(added),
                features@ == added.to_set(),
                added == concat_groups(group_views(groups@).take(i as int)),
            decreases groups@.len() - i,
        {
            let ghost before = added;
            add_group(&mut features, groups[i].0, &groups[i].1, Ghost(added));
            proof {
                let g = group_views(groups@)[i as int];
                added = before + group_if(g.0, g.1);
                assert(group_views(groups@).take(i + 1).drop_last() =~= group_views(groups@).take(
                    i as int,
                ));
            }
            i = i + 1;
        }
        assert(group_views(groups@).take(groups@.len() as int) =~= group_views(groups@));
        features
    }
}

/// One thing a build script does.
#[derive(Debug, Clone, PartialEq, Eq)]
pub enum BuildStep {
    /// Print this line for cargo.
    Emit(String),
    /// Merge the static archives `inputs` into the one archive `output`
    /// (`libtool -static -o output inputs...`).
    MergeArchives { output: String, inputs: Vec<String> },
}

/// A `BuildStep` with its texts as sequences.
pub enum BuildStepView {
    Emit(Seq<char>),
    MergeArchives(Seq<char>, Seq<Seq<char>>),
}

impl View for BuildStep {
    type V = BuildStepView;

    open spec fn view(&self) -> BuildStepView {
        match self {
            BuildStep::Emit(l) => BuildStepView::Emit(l@),
            BuildStep::MergeArchives { output, inputs } => BuildStepView::MergeArchives(
                output@,
                views(inputs@),
            ),
        }
    }
}

/// The views of a list of build steps.
pub open spec fn build_views(v: Seq<BuildStep>) -> Seq<BuildStepView> {
    v.map_values(|s: BuildStep| s@)
}

/// Printing each of `lines`, in order.
pub open spec fn emits(lines: Seq<Seq<char>>) -> Seq<BuildStepView> {
    lines.map_values(|l: Seq<char>| BuildStepView::Emit(l))
}

fn emit_all(steps: &mut Vec<BuildStep>, lines: Vec<String>)
    ensures
        build_views(final(steps)@) == build_views(old(steps)@) + emits(views(lines@)),
{
    let ghost start = build_views(steps@);
    let mut i: usize = 0;
    while i < lines.len()
        invariant
            i <= lines@.len(),
            build_views(steps@) == start + emits(views(lines@).take(i as int)),
        decreases lines@.len() - i,
    {
        let ghost before = steps@;
        let line = lines[i].clone();
        steps.push(BuildStep::Emit(line));
        i = i + 1;
        assert(build_views(steps@) =~= build_views(before).push(
            BuildStepView::Emit(lines@[i - 1]@),
        ));
        assert(emits(views(lines@).take(i as int)) =~= emits(views(lines@).take(i - 1)).push(
            BuildStepView::Emit(lines@[i - 1]@),
        ));
    }
    assert(views(lines@).take(lines@.len() as int) =~= views(lines@));
}

/// A list of text lines.
fn lines_of(a: &str, more: Vec<String>) -> (res: Vec<String>)
    ensures
        views(res@) == seq![a@] + views(more@),
{
    let mut res = Vec::new();
    res.push(a.to_owned());
    let mut i: usize = 0;
    while i < more.len()
        invariant
            i <= more@.len(),
            views(res@) == seq![a@] + views(more@).take(i as int),
        decreases more@.len() - i,
    {
        let ghost before = res@;
        res.push(more[i].clone());
        i = i + 1;
        assert(views(res@) =~= views(before).push(more@[i - 1]@));
        assert(views(more@).take(i as int) =~= views(more@).take(i - 1).push(more@[i - 1]@));
    }
    assert(views(more@).take(more@.len() as int) =~= views(more@));
    res
}

/// The lines that link feature `f` from the libraries in `dir`.
pub open spec fn feature_link_lines(f: Feature, dir: Seq<char>) -> Seq<Seq<char>> {
    match f {
        Feature::Threadpool => seq!["cargo::rustc-link-lib=static:+whole-archive=threadpool"@],
        Feature::XNNPack => seq!["cargo::rustc-link-lib=static:+whole-archive=backend_xnnpack"@],
        Feature::CoreML => seq![
            "cargo:rustc-link-arg=-force_load"@,
            "cargo:rustc-link-lib=static:+whole-archive=backend_coreml"@,
            "cargo:rustc-link-arg="@ + join_path(dir, "libbackend_coreml.a"@),
            "cargo:rustc-link-arg=-ObjC"@,
            "cargo:rustc-link-lib=framework=CoreML"@,
            "cargo:rustc-link-lib=sqlite3"@,
        ],
        Feature::OptimisedKernels => seq![
            "cargo::rustc-link-lib=static:+whole-archive=kernels_optimized"@,
        ],
        Feature::QuantisedKernels => seq![
            "cargo::rustc-link-lib=static:+whole-archive=kernels_quantized"@,
        ],
        Feature::Accelerate => seq!["cargo:rustc-link-lib=framework=Accelerate"@],
        Feature::LlmKernels => seq!["cargo::rustc-link-lib=static:+whole-archive=kernels_llm"@],
        Feature::Llm => seq!["cargo::rustc-link-lib=static:+whole-archive=executorch_llm"@],
        Feature::TorchAO => seq!["cargo::rustc-link-lib=static:+whole-archive=kernels_torchao"@],
    }
}

/// The static archive of a feature, if it has one; Accelerate is a system
/// framework.
pub open spec fn feature_archive(f: Feature) -> Option<Seq<char>> {
    match f {
        Feature::CoreML => Some("libbackend_coreml.a"@),
        Feature::XNNPack => Some("libbackend_xnnpack.a"@),
        Feature::Threadpool => Some("libthreadpool.a"@),
        Feature::OptimisedKernels => Some("libkernels_optimized.a"@),
        Feature::QuantisedKernels => Some("libkernels_quantized.a"@),
        Feature::LlmKernels => Some("libkernels_llm.a"@),
        Feature::Llm => Some("libexecutorch_llm.a"@),
        Feature::TorchAO => Some("libkernels_torchao.a"@),
        Feature::Accelerate => None,
    }
}

impl Feature {
    /// The lines that link this feature from the libraries in `prebuilt_dir`.
    pub fn link(&self, prebuilt_dir: &str) -> (res: Vec<String>)
        ensures
            views(res@) == feature_link_lines(*self, prebuilt_dir@),
    {
        let res = match self {
            Feature::Threadpool => lines_of(
                "cargo::rustc-link-lib=static:+whole-archive=threadpool",
                Vec::new(),
            ),
            Feature::XNNPack => lines_of(
                "cargo::rustc-link-lib=static:+whole-archive=backend_xnnpack",
                Vec::new(),
            ),
            Feature::CoreML => {
                let coreml = join(prebuilt_dir, "libbackend_coreml.a");
                let mut rest: Vec<String> = Vec::new();
                rest.push(String::from_str("cargo:rustc-link-lib=static:+whole-archive=backend_coreml"));
                rest.push(cat("cargo:rustc-link-arg=", coreml.as_str()));
                rest.push(String::from_str("cargo:rustc-link-arg=-ObjC"));
                rest.push(String::from_str("cargo:rustc-link-lib=framework=CoreML"));
                rest.push(String::from_str("cargo:rustc-link-lib=sqlite3"));
                lines_of("cargo:rustc-link-arg=-force_load", rest)
            },
            Feature::OptimisedKernels => lines_of(
                "cargo::rustc-link-lib=static:+whole-archive=kernels_optimized",
                Vec::new(),
            ),
            Feature::QuantisedKernels => lines_of(
                "cargo::rustc-link-lib=static:+whole-archive=kernels_quantized",
                Vec::new(),
            ),
            Feature::Accelerate => lines_of("cargo:rustc-link-lib=framework=Accelerate", Vec::new()),
            Feature::LlmKernels => lines_of(
                "cargo::rustc-link-lib=static:+whole-archive=kernels_llm",
                Vec::new(),
            ),
            Feature::Llm => lines_of(
                "cargo::rustc-link-lib=static:+whole-archive=executorch_llm",
                Vec::new(),
            ),
            Feature::TorchAO => lines_of(
                "cargo::rustc-link-lib=static:+whole-archive=kernels_torchao",
                Vec::new(),
            ),
        };
        assert(views(res@) =~= feature_link_lines(*self, prebuilt_dir@));
        res
    }

    /// The static archive of this feature, if it has one.
    fn archive(&self) -> (res: Option<String>)
        ensures
            match feature_archive(*self) {
                Some(n) => res matches Some(r) && r@ == n,
                None => res is None,
            },
    {
        match self {
            Feature::CoreML => Some(String::from_str("libbackend_coreml.a")),
            Feature::XNNPack => Some(String::from_str("libbackend_xnnpack.a")),
            Feature::Threadpool => Some(String::from_str("libthreadpool.a")),
            Feature::OptimisedKernels => Some(String::from_str("libkernels_optimized.a")),
            Feature::QuantisedKernels => Some(String::from_str("libkernels_quantized.a")),
            Feature::LlmKernels => Some(String::from_str("libkernels_llm.a")),
            Feature::Llm => Some(String::from_str("libexecutorch_llm.a")),
            Feature::TorchAO => Some(String::from_str("libkernels_torchao.a")),
            Feature::Accelerate => None,
        }
    }
}

/// The archives merged for an iOS slice: the runtime `libexecutorch.a` first,
/// then the archive of each feature that has one, in the set's order, all in
/// `dir`.
pub open spec fn merge_inputs(dir: Seq<char>, order: Seq<Feature>) -> Seq<Seq<char>>
    decreases order.len(),
{
    if order.len() == 0 {
        seq![join_path(dir, "libexecutorch.a"@)]
    } else {
        merge_inputs(dir, order.drop_last()) + match feature_archive(order.last()) {
            Some(n) => seq![join_path(dir, n)],
            None => seq![],
        }
    }
}

/// The system libraries an iOS slice links besides its merged archive: for
/// CoreML `-ObjC`, the CoreML framework and sqlite3; for Accelerate its
/// framework.
pub open spec fn framework_lines(features: Set<Feature>) -> Seq<Seq<char>> {
    (if features.contains(Feature::CoreML) {
        seq![
            "cargo:rustc-link-arg=-ObjC"@,
            "cargo:rustc-link-lib=framework=CoreML"@,
            "cargo:rustc-link-lib=sqlite3"@,
        ]
    } else {
        seq![]
    }) + (if features.contains(Feature::Accelerate) {
        seq!["cargo:rustc-link-lib=framework=Accelerate"@]
    } else {
        seq![]
    })
}

/// The file name of the merged archive; it links as `executorch_merged`.
pub open spec fn merged_file_name() -> Seq<char> {
    "libexecutorch_merged.a"@
}

/// Where the merged archive of a build with output directory `out` goes.
pub open spec fn merged_path(out: Seq<char>) -> Seq<char> {
    join_path(out, merged_file_name())
}

/// Merging the archives of an iOS slice: the framework lines, the merge
/// itself into `out/libexecutorch_merged.a`, then a `rerun-if-changed` line
/// for each merged archive.
pub open spec fn merge_steps(dir: Seq<char>, order: Seq<Feature>, out: Seq<char>) -> Seq<
    BuildStepView,
> {
    emits(framework_lines(order.to_set())) + seq![
        BuildStepView::MergeArchives(merged_path(out), merge_inputs(dir, order)),
    ] + emits(rerun_lines_of(merge_inputs(dir, order)))
}

/// A `rerun-if-changed` line for each path.
pub open spec fn rerun_lines_of(paths: Seq<Seq<char>>) -> Seq<Seq<char>>
    decreases paths.len(),
{
    if paths.len() == 0 {
        seq![]
    } else {
        rerun_lines_of(paths.drop_last()).push("cargo:rerun-if-changed="@ + paths.last())
    }
}

fn rerun_lines(libs: &Vec<String>) -> (res: Vec<String>)
    ensures
        views(res@) == rerun_lines_of(views(libs@)),
{
    let mut res: Vec<String> = Vec::new();
    let mut i: usize = 0;
    while i < libs.len()
        invariant
            i <= libs@.len(),
            views(res@) == rerun_lines_of(views(libs@).take(i as int)),
        decreases libs@.len() - i,
    {
        let ghost before = res@;
        res.push(cat("cargo:rerun-if-changed=", libs[i].as_str()));
        i = i + 1;
        assert(views(libs@).take(i as int).drop_last() =~= views(libs@).take(i - 1));
        assert(views(res@) =~= views(before).push("cargo:rerun-if-changed="@ + libs@[i - 1]@));
    }
    assert(views(libs@).take(libs@.len() as int) =~= views(libs@));
    res
}

fn framework_lines_exec(features: &FeatureSet) -> (res: Vec<String>)
    ensures
        views(res@) == framework_lines(features@),
{
    let mut res: Vec<String> = Vec::new();
    if features.contains(Feature::CoreML) {
        res.push(String::from_str("cargo:rustc-link-arg=-ObjC"));
        res.push(String::from_str("cargo:rustc-link-lib=framework=CoreML"));
        res.push(String::from_str("cargo:rustc-link-lib=sqlite3"));
    }
    if features.contains(Feature::Accelerate) {
        res.push(String::from_str("cargo:rustc-link-lib=framework=Accelerate"));
    }
    assert(views(res@) =~= framework_lines(features@));
    res
}

/// The steps that merge the static archives of an iOS slice in
/// `prebuilt_dir` into one archive in `out_dir`, so that the Apple linker
/// cannot drop static initialisers (such as the CoreML backend's
/// registration); and the path of that archive.
pub fn merge_apple_libs(prebuilt_dir: &str, features: &FeatureSet, out_dir: &str) -> (res: (
    Vec<BuildStep>,
    String,
))
    ensures
        build_views(res.0@) == merge_steps(prebuilt_dir@, features.order(), out_dir@),
        res.1@ == merged_path(out_dir@),
{
    let merged = join(out_dir, "libexecutorch_merged.a");
    let members = features.members();
    let mut libs: Vec<String> = Vec::new();
    libs.push(join(prebuilt_dir, "libexecutorch.a"));
    let mut i: usize = 0;
    while i < members.len()
        invariant
            i <= members@.len(),
            views(libs@) == merge_inputs(prebuilt_dir@, members@.take(i as int)),
        decreases members@.len() - i,
    {
        let ghost before = libs@;
        let f = members[i];
        match f.archive() {
            Some(name) => {
                libs.push(join(prebuilt_dir, name.as_str()));
            },
            None => {},
        }
        i = i + 1;
        proof {
            assert(members@.take(i as int).drop_last() =~= members@.take(i - 1));
            assert(members@.take(i as int).last() == f);
            assert(views(libs@) =~= merge_inputs(prebuilt_dir@, members@.take(i as int)));
        }
    }
    assert(members@.take(members@.len() as int) =~= members@);
    let mut steps: Vec<BuildStep> = Vec::new();
    emit_all(&mut steps, framework_lines_exec(features));
    let reruns = rerun_lines(&libs);
    let ghost before = build_views(steps@);
    let ghost inputs = views(libs@);
    steps.push(BuildStep::MergeArchives { output: merged.clone(), inputs: libs });
    assert(build_views(steps@) =~= before.push(
        BuildStepView::MergeArchives(merged_path(out_dir@), inputs),
    ));
    emit_all(&mut steps, reruns);
    assert(Seq::<BuildStepView>::empty() + emits(framework_lines(features@)) =~= emits(
        framework_lines(features@),
    ));
    assert(build_views(steps@) =~= merge_steps(prebuilt_dir@, features.order(), out_dir@));
    (steps, merged)
}

/// The lines that link the Swift runtime, given what `xcode-select
/// --print-path` printed: the deployment target, three compatibility
/// libraries, and the Swift library directory under the trimmed Xcode path.
pub open spec fn swift_lines(xcode: Seq<char>) -> Seq<Seq<char>> {
    seq![
        "cargo:rustc-env=MACOSX_DEPLOYMENT_TARGET=12.0"@,
        "cargo:rustc-link-lib=swiftCompatibility56"@,
        "cargo:rustc-link-lib=swiftCompatibilityPacks"@,
        "cargo:rustc-link-lib=swiftCompatibilityDynamicReplacements"@,
        "cargo:rustc-link-search="@ + trim(xcode)
            + "/Toolchains/XcodeDefault.xctoolchain/usr/lib/swift/macosx"@,
    ]
}

impl AppleTarget {
    /// The lines that link the Swift runtime, given what `xcode-select
    /// --print-path` printed.
    pub fn link_swift(xcode_select_output: &str) -> (res: Vec<String>)
        ensures
            views(res@) == swift_lines(xcode_select_output@),
    {
        let xcode_path = trim_string(xcode_select_output);
        let mut rest: Vec<String> = Vec::new();
        rest.push(String::from_str("cargo:rustc-link-lib=swiftCompatibility56"));
        rest.push(String::from_str("cargo:rustc-link-lib=swiftCompatibilityPacks"));
        rest.push(String::from_str("cargo:rustc-link-lib=swiftCompatibilityDynamicReplacements"));
        let mut search = cat("cargo:rustc-link-search=", xcode_path.as_str());
        search.append("/Toolchains/XcodeDefault.xctoolchain/usr/lib/swift/macosx");
        rest.push(search);
        let res = lines_of("cargo:rustc-env=MACOSX_DEPLOYMENT_TARGET=12.0", rest);
        assert(views(res@) =~= swift_lines(xcode_select_output@));
        res
    }
}

/// The lines that link every feature of `order` from `dir`, feature by
/// feature.
pub open spec fn all_feature_lines(order: Seq<Feature>, dir: Seq<char>) -> Seq<Seq<char>>
    decreases order.len(),
{
    if order.len() == 0 {
        seq![]
    } else {
        all_feature_lines(order.drop_last(), dir) + feature_link_lines(order.last(), dir)
    }
}

/// The lines that link the merged archive, given the directory that holds
/// it: that directory as a search path, then the library
/// `executorch_merged`; without a directory, the library line alone.
pub open spec fn merged_archive_lines(dir: Option<Seq<char>>) -> Seq<Seq<char>> {
    match dir {
        Some(d) => seq![
            "cargo::rustc-link-search=native="@ + d,
            "cargo::rustc-link-lib=static:+whole-archive=executorch_merged"@,
        ],
        None => seq!["cargo::rustc-link-lib=static:+whole-archive=executorch_merged"@],
    }
}

/// The lines that link the merged archive of a build with output directory
/// `out`, from the parent directory of the merged archive's path. A merged
/// path without a parent directory (there is none such on Unix) gets no
/// search line.
pub open spec fn merged_link_lines(out: Seq<char>) -> Seq<Seq<char>> {
    merged_archive_lines(path_parent(merged_path(out)))
}

/// The lines that link the merged archive, given the directory that holds it
/// (`None` when its path has no parent).
pub fn merged_archive_link_lines(merged_dir: Option<&str>) -> (res: Vec<String>)
    ensures
        views(res@) == merged_archive_lines(
            match merged_dir {
                Some(d) => Some(d@),
                None => None,
            },
        ),
{
    let mut res: Vec<String> = Vec::new();
    match merged_dir {
        Some(dir) => {
            res.push(cat("cargo::rustc-link-search=native=", dir));
        },
        None => {},
    }
    res.push(String::from_str("cargo::rustc-link-lib=static:+whole-archive=executorch_merged"));
    assert(views(res@) =~= merged_archive_lines(
        match merged_dir {
            Some(d) => Some(d@),
            None => None,
        },
    ));
    res
}

/// What linking the prebuilt libraries in `dl` takes. For Android: the search
/// path and the shared `executorch` library. For Apple: the Swift runtime
/// first; then for an iOS slice the merge of all archives and the merged
/// library from its directory, for macOS the search path, the whole
/// `executorch` archive and each feature's lines.
pub open spec fn merge_step_plan(
    target: Target,
    dl: Seq<char>,
    order: Seq<Feature>,
    out: Seq<char>,
    xcode: Seq<char>,
) -> Seq<BuildStepView> {
    match target {
        Target::Apple(a) => emits(swift_lines(xcode)) + if a is IosArm64 || a is SimulatorArm64 {
            merge_steps(dl, order, out) + emits(merged_link_lines(out))
        } else {
            emits(
                seq![
                    "cargo::rustc-link-search=native="@ + dl,
                    "cargo::rustc-link-lib=static:+whole-archive=executorch"@,
                ] + all_feature_lines(order, dl),
            )
        },
        Target::Android(_) => emits(
            seq!["cargo:rustc-link-search=native="@ + dl, "cargo:rustc-link-lib=dylib=executorch"@],
        ),
    }
}

/// The steps that link the prebuilt libraries in `dl_path` with `features`
/// for `target` (see `merge_step_plan`). `out_dir` is the build's output
/// directory; `xcode_select_output` what `xcode-select --print-path` printed
/// (read for Apple targets only).
pub fn static_lib_merge_step(
    target: Target,
    dl_path: &str,
    features: &FeatureSet,
    out_dir: &str,
    xcode_select_output: &str,
) -> (res: Vec<BuildStep>)
    ensures
        build_views(res@) == merge_step_plan(
            target,
            dl_path@,
            features.order(),
            out_dir@,
            xcode_select_output@,
        ),
{
    let mut steps: Vec<BuildStep> = Vec::new();
    match target {
        Target::Apple(apple_target) => {
            emit_all(&mut steps, AppleTarget::link_swift(xcode_select_output));
            let ghost swift = build_views(steps@);
            let needs_merge = match apple_target {
                AppleTarget::IosArm64 | AppleTarget::SimulatorArm64 => true,
                AppleTarget::MacOsArm64 => false,
            };
            if needs_merge {
                let (mut merge, merged) = merge_apple_libs(dl_path, features, out_dir);
                let ghost before = steps@;
                let ghost merge_seq = merge@;
                steps.append(&mut merge);
                assert(steps@ == before + merge_seq);
                assert(build_views(steps@) =~= swift + build_views(merge_seq));
                let parent = parent_of(merged.as_str());
                let last = match &parent {
                    Some(dir) => merged_archive_link_lines(Some(dir.as_str())),
                    None => merged_archive_link_lines(None),
                };
                emit_all(&mut steps, last);
                proof {
                    assert(views(last@) =~= merged_link_lines(out_dir@));
                    assert(build_views(steps@) =~= emits(swift_lines(xcode_select_output@)) + (
                    merge_steps(dl_path@, features.order(), out_dir@) + emits(
                        merged_link_lines(out_dir@),
                    )));
                }
            } else {
                let mut lines: Vec<String> = Vec::new();
                lines.push(cat("cargo::rustc-link-search=native=", dl_path));
                lines.push(String::from_str("cargo::rustc-link-lib=static:+whole-archive=executorch"));
                let members = features.members();
                let mut i: usize = 0;
                while i < members.len()
                    invariant
                        i <= members@.len(),
                        views(lines@) == seq![
                            "cargo::rustc-link-search=native="@ + dl_path@,
                            "cargo::rustc-link-lib=static:+whole-archive=executorch"@,
                        ] + all_feature_lines(members@.take(i as int), dl_path@),
                    decreases members@.len() - i,
                {
                    let more = members[i].link(dl_path);
                    let ghost before = views(lines@);
                    let mut k: usize = 0;
                    while k < more.len()
                        invariant
                            k <= more@.len(),
                            views(lines@) == before + views(more@).take(k as int),
                        decreases more@.len() - k,
                    {
                        let ghost b2 = lines@;
                        lines.push(more[k].clone());
                        k = k + 1;
                        assert(views(lines@) =~= views(b2).push(more@[k - 1]@));
                        assert(views(more@).take(k as int) =~= views(more@).take(k - 1).push(
                            more@[k - 1]@,
                        ));
                    }
                    assert(views(more@).take(more@.len() as int) =~= views(more@));
                    i = i + 1;
                    assert(members@.take(i as int).drop_last() =~= members@.take(i - 1));
                }
                assert(members@.take(members@.len() as int) =~= members@);
                let ghost swift_part = build_views(steps@);
                let ghost ls = views(lines@);
                emit_all(&mut steps, lines);
                assert(build_views(steps@) =~= swift_part + emits(ls));
            }
        },
        Target::Android(_) => {
            let mut tail: Vec<String> = Vec::new();
            tail.push(String::from_str("cargo:rustc-link-lib=dylib=executorch"));
            let ls = lines_of(cat("cargo:rustc-link-search=native=", dl_path).as_str(), tail);
            emit_all(&mut steps, ls);
            assert(build_views(steps@) =~= emits(
                seq![
                    "cargo:rustc-link-search=native="@ + dl_path@,
                    "cargo:rustc-link-lib=dylib=executorch"@,
                ],
            ));
        },
    }
    assert(build_views(steps@) =~= merge_step_plan(
        target,
        dl_path@,
        features.order(),
        out_dir@,
        xcode_select_output@,
    ));
    steps
}

/// The directory of `target`'s libraries in a release unpacked into
/// `fetched`.
pub open spec fn target_dir(target: Target, fetched: Seq<char>) -> Seq<char> {
    match target {
        Target::Android(a) => join_path(fetched, android_dir_name(a)),
        Target::Apple(a) => join_path(fetched, apple_dir_name(a)),
    }
}

/// The lines that `link_target` emits for the libraries in `libs_dir`.
pub open spec fn target_link_lines(target: Target, libs_dir: Seq<char>, xcode: Seq<char>) -> Seq<
    Seq<char>,
> {
    match target {
        Target::Android(_) => seq![
            "cargo:rustc-link-search=native="@ + libs_dir,
            "cargo:rustc-link-lib=dylib=executorch"@,
        ],
        Target::Apple(_) => swift_lines(xcode) + seq![
            "cargo::rustc-link-search=native="@ + libs_dir,
            "cargo::rustc-link-lib=static:+whole-archive=executorch"@,
        ],
    }
}

impl Target {
    /// The directory of this target's libraries in a release that was
    /// downloaded and unpacked into `fetched_dir`: the architecture directory
    /// (`x86_64` or `aarch64`) of an Android release, the slice directory
    /// (`ios-arm64`, `ios-arm64-simulator` or `macos-arm64`) of an Apple one.
    pub fn download(&self, fetched_dir: &str) -> (res: String)
        ensures
            res@ == target_dir(*self, fetched_dir@),
    {
        match self {
            Target::Android(a) => join(fetched_dir, a.dir_name().as_str()),
            Target::Apple(a) => join(fetched_dir, a.dir_name().as_str()),
        }
    }

    /// The lines that link the runtime library of a release unpacked into
    /// `fetched_dir` as a whole: for Android the shared library, for Apple the
    /// Swift runtime and the whole static archive.
    pub fn link_target(&self, fetched_dir: &str, xcode_select_output: &str) -> (res: Vec<String>)
        ensures
            views(res@) == target_link_lines(*self, target_dir(*self, fetched_dir@), xcode_select_output@),
    {
        let libs_dir = self.download(fetched_dir);
        match self {
            Target::Android(_) => {
                let mut tail: Vec<String> = Vec::new();
                tail.push(String::from_str("cargo:rustc-link-lib=dylib=executorch"));
                let res = lines_of(cat("cargo:rustc-link-search=native=", libs_dir.as_str()).as_str(), tail);
                assert(views(res@) =~= target_link_lines(*self, libs_dir@, xcode_select_output@));
                res
            },
            Target::Apple(_) => {
                let mut res = AppleTarget::link_swift(xcode_select_output);
                let ghost swift = views(res@);
                res.push(cat("cargo::rustc-link-search=native=", libs_dir.as_str()));
                res.push(String::from_str("cargo::rustc-link-lib=static:+whole-archive=executorch"));
                assert(views(res@) =~= target_link_lines(*self, libs_dir@, xcode_select_output@));
                res
            },
        }
    }
}

/// Everything a build script does to link the prebuilt libraries for
/// `target`, given the directory a release was unpacked into, the enabled
/// cargo features, the build's output directory and what `xcode-select
/// --print-path` printed (read for Apple targets only): the libraries of the
/// target's directory with the features the build requests (see
/// `merge_step_plan`).
pub fn link_prebuilts(
    target: Target,
    fetched_dir: &str,
    enabled: &EnabledFeatures,
    out_dir: &str,
    xcode_select_output: &str,
) -> (res: Vec<BuildStep>)
    ensures
        build_views(res@) == merge_step_plan(
            target,
            target_dir(target, fetched_dir@),
            first_occurrences(requested_features(target, *enabled)),
            out_dir@,
            xcode_select_output@,
        ),
{
    let dl_path = target.download(fetched_dir);
    let features = Feature::get_features(&target, enabled);
    static_lib_merge_step(target, dl_path.as_str(), &features, out_dir, xcode_select_output)
}

/// An Android build requests no features: its library comes with every
/// feature linked in.
pub proof fn lemma_android_requests_no_features(arch: AndroidTarget, enabled: EnabledFeatures)
    ensures
        requested_features(Target::Android(arch), enabled).to_set() == Set::<Feature>::empty(),
        first_occurrences(requested_features(Target::Android(arch), enabled)) == Seq::<
            Feature,
        >::empty(),
{
    assert(requested_features(Target::Android(arch), enabled).to_set() =~= Set::<Feature>::empty());
}

proof fn lemma_join_injective(dir: Seq<char>, n1: Seq<char>, n2: Seq<char>)
    requires
        join_path(dir, n1) == join_path(dir, n2),
    ensures
        n1 == n2,
{
    let j = join_path(dir, n1);
    let k = if dir.len() == 0 {
        0
    } else if dir.last() == '/' {
        dir.len() as int
    } else {
        dir.len() + 1int
    };
    assert(j.subrange(k, j.len() as int) =~= n1);
    assert(join_path(dir, n2).subrange(k, j.len() as int) =~= n2);
}

proof fn lemma_archive_names_distinct(f: Feature, g: Feature)
    requires
        f != g,
        feature_archive(f) is Some,
        feature_archive(g) is Some,
    ensures
        feature_archive(f) != feature_archive(g),
        feature_archive(f) != Some("libexecutorch.a"@),
{
    reveal_strlit("libbackend_coreml.a");
    reveal_strlit("libbackend_xnnpack.a");
    reveal_strlit("libthreadpool.a");
    reveal_strlit("libkernels_optimized.a");
    reveal_strlit("libkernels_quantized.a");
    reveal_strlit("libkernels_llm.a");
    reveal_strlit("libexecutorch_llm.a");
    reveal_strlit("libkernels_torchao.a");
    reveal_strlit("libexecutorch.a");
    let a = feature_archive(f)->0;
    let b = feature_archive(g)->0;
    assert(a[3] != b[3] || a[4] != b[4] || a[9] != b[9] || a[10] != b[10] || a[11] != b[11]
        || a.len() != b.len());
    let e = "libexecutorch.a"@;
    assert(a[3] != e[3] || a[4] != e[4] || a[9] != e[9] || a[10] != e[10] || a[11] != e[11]
        || a.len() != e.len());
}

proof fn lemma_merge_inputs_members(dir: Seq<char>, order: Seq<Feature>, i: int)
    requires
        0 <= i < merge_inputs(dir, order).len(),
    ensures
        merge_inputs(dir, order)[i] == join_path(dir, "libexecutorch.a"@) || exists|f: Feature|
            #[trigger] order.contains(f) && feature_archive(f) is Some && merge_inputs(dir, order)[i]
                == join_path(dir, feature_archive(f)->0),
        i == 0 <==> merge_inputs(dir, order)[i] == join_path(dir, "libexecutorch.a"@),
    decreases order.len(),
{
    if order.len() > 0 {
        let init = order.drop_last();
        let prev = merge_inputs(dir, init);
        if i < prev.len() {
            lemma_merge_inputs_members(dir, init, i);
            if i != 0 {
                let f = choose|f: Feature|
                    #[trigger] init.contains(f) && feature_archive(f) is Some && prev[i]
                        == join_path(dir, feature_archive(f)->0);
                assert(order.contains(f)) by {
                    let k = choose|k: int| 0 <= k < init.len() && init[k] == f;
                    assert(order[k] == f);
                }
            }
        } else {
            let f = order.last();
            assert(order.contains(f)) by {
                assert(order[order.len() - 1] == f);
            }
            lemma_merge_inputs_len(dir, init);
            if merge_inputs(dir, order)[i] == join_path(dir, "libexecutorch.a"@) {
                lemma_join_injective(dir, feature_archive(f)->0, "libexecutorch.a"@);
                reveal_strlit("libexecutorch.a");
                lemma_archive_names_not_runtime(f);
            }
        }
    } else {
    }
}

proof fn lemma_archive_names_not_runtime(f: Feature)
    requires
        feature_archive(f) is Some,
    ensures
        feature_archive(f)->0 != "libexecutorch.a"@,
{
    let g = if f == Feature::XNNPack {
        Feature::CoreML
    } else {
        Feature::XNNPack
    };
    lemma_archive_names_distinct(f, g);
}

proof fn lemma_merge_inputs_len(dir: Seq<char>, order: Seq<Feature>)
    ensures
        merge_inputs(dir, order).len() >= 1,
    decreases order.len(),
{
    if order.len() > 0 {
        lemma_merge_inputs_len(dir, order.drop_last());
    }
}

/// The archives merged for an iOS slice are all different when the features
/// are: libtool gets each archive once, the runtime archive first.
pub proof fn lemma_merge_inputs_distinct(dir: Seq<char>, order: Seq<Feature>)
    requires
        order.no_duplicates(),
    ensures
        merge_inputs(dir, order).no_duplicates(),
        merge_inputs(dir, order)[0] == join_path(dir, "libexecutorch.a"@),
    decreases order.len(),
{
    lemma_merge_inputs_len(dir, order);
    lemma_merge_inputs_members(dir, order, 0);
    if order.len() > 0 {
        let init = order.drop_last();
        assert(init.no_duplicates()) by {
            assert forall|a: int, b: int| 0 <= a < init.len() && 0 <= b < init.len() && a != b implies init[a]
                != init[b] by {
                assert(init[a] == order[a] && init[b] == order[b]);
            }
        }
        lemma_merge_inputs_distinct(dir, init);
        let prev = merge_inputs(dir, init);
        let cur = merge_inputs(dir, order);
        let f = order.last();
        if let Some(n) = feature_archive(f) {
            assert(cur == prev.push(join_path(dir, n)));
            assert forall|a: int, b: int| 0 <= a < cur.len() && 0 <= b < cur.len() && a != b implies cur[a]
                != cur[b] by {
                if a < prev.len() && b < prev.len() {
                    assert(cur[a] == prev[a] && cur[b] == prev[b]);
                } else {
                    let k = if a < prev.len() { a } else { b };
                    assert(cur[k] == prev[k]);
                    lemma_merge_inputs_members(dir, init, k);
                    if cur[k] == join_path(dir, n) {
                        if cur[k] == join_path(dir, "libexecutorch.a"@) {
                            lemma_join_injective(dir, n, "libexecutorch.a"@);
                            lemma_archive_names_not_runtime(f);
                        } else {
                            let g = choose|g: Feature|
                                #[trigger] init.contains(g) && feature_archive(g) is Some && prev[k]
                                    == join_path(dir, feature_archive(g)->0);
                            lemma_join_injective(dir, n, feature_archive(g)->0);
                            let m = choose|m: int| 0 <= m < init.len() && init[m] == g;
                            assert(order[m] == g);
                            assert(order[order.len() - 1] == f);
                            assert(g != f);
                            lemma_archive_names_distinct(f, g);
                        }
                    }
                }
            }
        } else {
            assert(cur =~= prev);
        }
    }
}

/// Archives are merged only for the iOS slices: a macOS or Android build only
/// emits lines, and an iOS or simulator build merges exactly once.
pub proof fn lemma_merge_only_on_ios(
    target: Target,
    dl: Seq<char>,
    order: Seq<Feature>,
    out: Seq<char>,
    xcode: Seq<char>,
)
    ensures
        (target is Android || target == Target::Apple(AppleTarget::MacOsArm64)) ==> forall|i: int|
            0 <= i < merge_step_plan(target, dl, order, out, xcode).len() ==> #[trigger] merge_step_plan(
                target,
                dl,
                order,
                out,
                xcode,
            )[i] is Emit,
        (target == Target::Apple(AppleTarget::IosArm64) || target == Target::Apple(
            AppleTarget::SimulatorArm64,
        )) ==> {
            let plan = merge_step_plan(target, dl, order, out, xcode);
            let k = 5 + framework_lines(order.to_set()).len() as int;
            &&& plan[k] is MergeArchives
            &&& forall|i: int| 0 <= i < plan.len() && i != k ==> #[trigger] plan[i] is Emit
        },
{
    let plan = merge_step_plan(target, dl, order, out, xcode);
    let sw = emits(swift_lines(xcode));
    let fw = emits(framework_lines(order.to_set()));
    match target {
        Target::Apple(a) => {
            if a is IosArm64 || a is SimulatorArm64 {
                let k = 5 + framework_lines(order.to_set()).len() as int;
                assert forall|i: int| 0 <= i < plan.len() && i != k implies #[trigger] plan[i] is Emit by {
                    if i < 5 {
                        assert(plan[i] == sw[i]);
                    } else if i < k {
                        assert(plan[i] == fw[i - 5]);
                    } else {
                        let tail = emits(rerun_lines_of(merge_inputs(dl, order))) + emits(
                            merged_link_lines(out),
                        );
                        assert(plan =~= sw + fw + seq![
                            BuildStepView::MergeArchives(merged_path(out), merge_inputs(dl, order)),
                        ] + tail);
                        assert(plan[i] == tail[i - k - 1]);
                    }
                }
                assert(plan[k] == BuildStepView::MergeArchives(merged_path(out), merge_inputs(dl, order)));
            } else {
                assert forall|i: int| 0 <= i < plan.len() implies #[trigger] plan[i] is Emit by {
                    let lines = seq![
                        "cargo::rustc-link-search=native="@ + dl,
                        "cargo::rustc-link-lib=static:+whole-archive=executorch"@,
                    ] + all_feature_lines(order, dl);
                    if i < 5 {
                        assert(plan[i] == sw[i]);
                    } else {
                        assert(plan[i] == emits(lines)[i - 5]);
                    }
                }
            }
        },
        Target::Android(_) => {},
    }
}

/// The static library that a feature's lines link whole; none for
/// Accelerate, a system framework.
pub open spec fn whole_archive_library(f: Feature) -> Option<Seq<char>> {
    match f {
        Feature::XNNPack => Some("backend_xnnpack"@),
        Feature::CoreML => Some("backend_coreml"@),
        Feature::OptimisedKernels => Some("kernels_optimized"@),
        Feature::QuantisedKernels => Some("kernels_quantized"@),
        Feature::LlmKernels => Some("kernels_llm"@),
        Feature::Llm => Some("executorch_llm"@),
        Feature::TorchAO => Some("kernels_torchao"@),
        Feature::Threadpool => Some("threadpool"@),
        Feature::Accelerate => None,
    }
}

/// The line that links the static library `l` whole, in either of the two
/// spellings cargo accepts.
pub open spec fn links_whole(lines: Seq<Seq<char>>, l: Seq<char>) -> bool {
    lines.contains("cargo::rustc-link-lib=static:+whole-archive="@ + l) || lines.contains(
        "cargo:rustc-link-lib=static:+whole-archive="@ + l,
    )
}

/// A macOS build and an iOS build link the same libraries for a feature: the
/// library `L` that the feature's lines link whole is the archive `libL.a`
/// that the iOS merge takes for it, after the runtime archive. Accelerate
/// links only its framework and adds no archive to the merge.
pub proof fn lemma_link_matches_merge(f: Feature, dir: Seq<char>)
    ensures
        match whole_archive_library(f) {
            Some(l) => {
                &&& links_whole(feature_link_lines(f, dir), l)
                &&& feature_archive(f) == Some("lib"@ + l + ".a"@)
                &&& merge_inputs(dir, seq![f]) == seq![
                    join_path(dir, "libexecutorch.a"@),
                    join_path(dir, "lib"@ + l + ".a"@),
                ]
            },
            None => {
                &&& feature_link_lines(f, dir) == seq!["cargo:rustc-link-lib=framework=Accelerate"@]
                &&& feature_archive(f) is None
                &&& merge_inputs(dir, seq![f]) == seq![join_path(dir, "libexecutorch.a"@)]
            },
        },
{
    reveal_strlit("lib");
    reveal_strlit(".a");
    reveal_strlit("cargo::rustc-link-lib=static:+whole-archive=");
    reveal_strlit("cargo:rustc-link-lib=static:+whole-archive=");
    assert(seq![f].drop_last() =~= Seq::<Feature>::empty());
    assert(seq![f].last() == f);
    let base = seq![join_path(dir, "libexecutorch.a"@)];
    assert(merge_inputs(dir, Seq::<Feature>::empty()) == base);
    assert(merge_inputs(dir, seq![f]) == base + match feature_archive(f) {
        Some(n) => seq![join_path(dir, n)],
        None => seq![],
    });
    let lines = feature_link_lines(f, dir);
    match f {
        Feature::XNNPack => {
            reveal_strlit("backend_xnnpack");
            reveal_strlit("libbackend_xnnpack.a");
            reveal_strlit("cargo::rustc-link-lib=static:+whole-archive=backend_xnnpack");
            assert("libbackend_xnnpack.a"@ =~= "lib"@ + "backend_xnnpack"@ + ".a"@);
            assert("cargo::rustc-link-lib=static:+whole-archive=backend_xnnpack"@ =~= "cargo::rustc-link-lib=static:+whole-archive="@ + "backend_xnnpack"@);
            assert(lines[0] == "cargo::rustc-link-lib=static:+whole-archive="@ + "backend_xnnpack"@);
            assert(merge_inputs(dir, seq![f]) =~= seq![
                join_path(dir, "libexecutorch.a"@),
                join_path(dir, "lib"@ + "backend_xnnpack"@ + ".a"@),
            ]);
        },
        Feature::CoreML => {
            reveal_strlit("backend_coreml");
            reveal_strlit("libbackend_coreml.a");
            reveal_strlit("cargo:rustc-link-lib=static:+whole-archive=backend_coreml");
            assert("libbackend_coreml.a"@ =~= "lib"@ + "backend_coreml"@ + ".a"@);
            assert("cargo:rustc-link-lib=static:+whole-archive=backend_coreml"@ =~= "cargo:rustc-link-lib=static:+whole-archive="@ + "backend_coreml"@);
            assert(lines[1] == "cargo:rustc-link-lib=static:+whole-archive="@ + "backend_coreml"@);
            assert(merge_inputs(dir, seq![f]) =~= seq![
                join_path(dir, "libexecutorch.a"@),
                join_path(dir, "lib"@ + "backend_coreml"@ + ".a"@),
            ]);
        },
        Feature::OptimisedKernels => {
            reveal_strlit("kernels_optimized");
            reveal_strlit("libkernels_optimized.a");
            reveal_strlit("cargo::rustc-link-lib=static:+whole-archive=kernels_optimized");
            assert("libkernels_optimized.a"@ =~= "lib"@ + "kernels_optimized"@ + ".a"@);
            assert("cargo::rustc-link-lib=static:+whole-archive=kernels_optimized"@ =~= "cargo::rustc-link-lib=static:+whole-archive="@ + "kernels_optimized"@);
            assert(lines[0] == "cargo::rustc-link-lib=static:+whole-archive="@ + "kernels_optimized"@);
            assert(merge_inputs(dir, seq![f]) =~= seq![
                join_path(dir, "libexecutorch.a"@),
                join_path(dir, "lib"@ + "kernels_optimized"@ + ".a"@),
            ]);
        },
        Feature::QuantisedKernels => {
            reveal_strlit("kernels_quantized");
            reveal_strlit("libkernels_quantized.a");
            reveal_strlit("cargo::rustc-link-lib=static:+whole-archive=kernels_quantized");
            assert("libkernels_quantized.a"@ =~= "lib"@ + "kernels_quantized"@ + ".a"@);
            assert("cargo::rustc-link-lib=static:+whole-archive=kernels_quantized"@ =~= "cargo::rustc-link-lib=static:+whole-archive="@ + "kernels_quantized"@);
            assert(lines[0] == "cargo::rustc-link-lib=static:+whole-archive="@ + "kernels_quantized"@);
            assert(merge_inputs(dir, seq![f]) =~= seq![
                join_path(dir, "libexecutorch.a"@),
                join_path(dir, "lib"@ + "kernels_quantized"@ + ".a"@),
            ]);
        },
        Feature::LlmKernels => {
            reveal_strlit("kernels_llm");
            reveal_strlit("libkernels_llm.a");
            reveal_strlit("cargo::rustc-link-lib=static:+whole-archive=kernels_llm");
            assert("libkernels_llm.a"@ =~= "lib"@ + "kernels_llm"@ + ".a"@);
            assert("cargo::rustc-link-lib=static:+whole-archive=kernels_llm"@ =~= "cargo::rustc-link-lib=static:+whole-archive="@ + "kernels_llm"@);
            assert(lines[0] == "cargo::rustc-link-lib=static:+whole-archive="@ + "kernels_llm"@);
            assert(merge_inputs(dir, seq![f]) =~= seq![
                join_path(dir, "libexecutorch.a"@),
                join_path(dir, "lib"@ + "kernels_llm"@ + ".a"@),
            ]);
        },
        Feature::Llm => {
            reveal_strlit("executorch_llm");
            reveal_strlit("libexecutorch_llm.a");
            reveal_strlit("cargo::rustc-link-lib=static:+whole-archive=executorch_llm");
            assert("libexecutorch_llm.a"@ =~= "lib"@ + "executorch_llm"@ + ".a"@);
            assert("cargo::rustc-link-lib=static:+whole-archive=executorch_llm"@ =~= "cargo::rustc-link-lib=static:+whole-archive="@ + "executorch_llm"@);
            assert(lines[0] == "cargo::rustc-link-lib=static:+whole-archive="@ + "executorch_llm"@);
            assert(merge_inputs(dir, seq![f]) =~= seq![
                join_path(dir, "libexecutorch.a"@),
                join_path(dir, "lib"@ + "executorch_llm"@ + ".a"@),
            ]);
        },
        Feature::TorchAO => {
            reveal_strlit("kernels_torchao");
            reveal_strlit("libkernels_torchao.a");
            reveal_strlit("cargo::rustc-link-lib=static:+whole-archive=kernels_torchao");
            assert("libkernels_torchao.a"@ =~= "lib"@ + "kernels_torchao"@ + ".a"@);
            assert("cargo::rustc-link-lib=static:+whole-archive=kernels_torchao"@ =~= "cargo::rustc-link-lib=static:+whole-archive="@ + "kernels_torchao"@);
            assert(lines[0] == "cargo::rustc-link-lib=static:+whole-archive="@ + "kernels_torchao"@);
            assert(merge_inputs(dir, seq![f]) =~= seq![
                join_path(dir, "libexecutorch.a"@),
                join_path(dir, "lib"@ + "kernels_torchao"@ + ".a"@),
            ]);
        },
        Feature::Threadpool => {
            reveal_strlit("threadpool");
            reveal_strlit("libthreadpool.a");
            reveal_strlit("cargo::rustc-link-lib=static:+whole-archive=threadpool");
            assert("libthreadpool.a"@ =~= "lib"@ + "threadpool"@ + ".a"@);
            assert("cargo::rustc-link-lib=static:+whole-archive=threadpool"@ =~= "cargo::rustc-link-lib=static:+whole-archive="@ + "threadpool"@);
            assert(lines[0] == "cargo::rustc-link-lib=static:+whole-archive="@ + "threadpool"@);
            assert(merge_inputs(dir, seq![f]) =~= seq![
                join_path(dir, "libexecutorch.a"@),
                join_path(dir, "lib"@ + "threadpool"@ + ".a"@),
            ]);
        },
        Feature::Accelerate => {
            assert(merge_inputs(dir, seq![f]) =~= base);
        },
    }
}

proof fn lemma_concat_groups_contains(g: Seq<(bool, Seq<Feature>)>, f: Feature)
    ensures
        concat_groups(g).contains(f) <==> exists|i: int|
            0 <= i < g.len() && g[i].0 && #[trigger] g[i].1.contains(f),
    decreases g.len(),
{
    if g.len() > 0 {
        let init = g.drop_last();
        lemma_concat_groups_contains(init, f);
        let a = concat_groups(init);
        let b = group_if(g.last().0, g.last().1);
        if concat_groups(g).contains(f) {
            let k = choose|k: int| 0 <= k < (a + b).len() && (a + b)[k] == f;
            if k < a.len() {
                assert(a[k] == f);
                let i = choose|i: int| 0 <= i < init.len() && init[i].0 && #[trigger] init[i].1.contains(f);
                assert(g[i] == init[i]);
            } else {
                assert(b[k - a.len()] == f);
                assert(g[g.len() - 1].1.contains(f));
            }
        }
        if exists|i: int| 0 <= i < g.len() && g[i].0 && #[trigger] g[i].1.contains(f) {
            let i = choose|i: int| 0 <= i < g.len() && g[i].0 && #[trigger] g[i].1.contains(f);
            if i < init.len() {
                assert(init[i] == g[i]);
                assert(init[i].1.contains(f));
                let k = choose|k: int| 0 <= k < a.len() && a[k] == f;
                assert((a + b)[k] == f);
            } else {
                let k = choose|k: int| 0 <= k < b.len() && b[k] == f;
                assert((a + b)[a.len() + k] == f);
            }
        }
    }
}

/// Each cargo feature of an Apple build brings in its own features and no
/// others: XNNPack and the thread pool with `xnnpack`, the optimised kernels
/// with `optimised_kernels`, the TorchAO kernels with `torch_ao`, the
/// quantised kernels with `quantised_kernels`, the LLM runner with `llm`, the
/// LLM kernels with `llm_kernels`, CoreML with `coreml`, and Accelerate with
/// `optimised_kernels` or `coreml`.
pub proof fn lemma_apple_features_by_flag(apple: AppleTarget, e: EnabledFeatures)
    ensures
        requested_features(Target::Apple(apple), e).contains(Feature::XNNPack) <==> e.xnnpack,
        requested_features(Target::Apple(apple), e).contains(Feature::Threadpool) <==> e.xnnpack,
        requested_features(Target::Apple(apple), e).contains(Feature::OptimisedKernels)
            <==> e.optimised_kernels,
        requested_features(Target::Apple(apple), e).contains(Feature::TorchAO) <==> e.torch_ao,
        requested_features(Target::Apple(apple), e).contains(Feature::QuantisedKernels)
            <==> e.quantised_kernels,
        requested_features(Target::Apple(apple), e).contains(Feature::Llm) <==> e.llm,
        requested_features(Target::Apple(apple), e).contains(Feature::LlmKernels) <==> e.llm_kernels,
        requested_features(Target::Apple(apple), e).contains(Feature::CoreML) <==> e.coreml,
        requested_features(Target::Apple(apple), e).contains(Feature::Accelerate) <==> (
        e.optimised_kernels || e.coreml),
{
    let g = feature_groups(e);
    let fs = seq![
        Feature::XNNPack,
        Feature::Threadpool,
        Feature::OptimisedKernels,
        Feature::TorchAO,
        Feature::QuantisedKernels,
        Feature::Llm,
        Feature::LlmKernels,
        Feature::CoreML,
        Feature::Accelerate,
    ];
    assert forall|k: int| 0 <= k < 9 implies {
        let f = #[trigger] fs[k];
        concat_groups(g).contains(f) <==> exists|i: int|
            0 <= i < g.len() && g[i].0 && #[trigger] g[i].1.contains(f)
    } by {
        lemma_concat_groups_contains(g, fs[k]);
    }
    assert(g[0].1[0] == Feature::XNNPack && g[0].1[1] == Feature::Threadpool);
    assert(g[1].1[0] == Feature::Accelerate && g[1].1[1] == Feature::OptimisedKernels);
    assert(g[2].1[0] == Feature::TorchAO);
    assert(g[3].1[0] == Feature::QuantisedKernels);
    assert(g[4].1[0] == Feature::Llm);
    assert(g[5].1[0] == Feature::LlmKernels);
    assert(g[6].1[0] == Feature::Accelerate && g[6].1[1] == Feature::CoreML);
    assert forall|i: int, f: Feature| 0 <= i < 7 && #[trigger] g[i].1.contains(f) implies (
        i == 0 && (f == Feature::XNNPack || f == Feature::Threadpool)) || (i == 1 && (f
        == Feature::Accelerate || f == Feature::OptimisedKernels)) || (i == 2 && f
        == Feature::TorchAO) || (i == 3 && f == Feature::QuantisedKernels) || (i == 4 && f
        == Feature::Llm) || (i == 5 && f == Feature::LlmKernels) || (i == 6 && (f
        == Feature::Accelerate || f == Feature::CoreML)) by {
        let k = choose|k: int| 0 <= k < g[i].1.len() && g[i].1[k] == f;
    }
    assert(g[0].1.contains(Feature::XNNPack));
    assert(g[0].1.contains(Feature::Threadpool));
    assert(g[1].1.contains(Feature::Accelerate));
    assert(g[1].1.contains(Feature::OptimisedKernels));
    assert(g[2].1.contains(Feature::TorchAO));
    assert(g[3].1.contains(Feature::QuantisedKernels));
    assert(g[4].1.contains(Feature::Llm));
    assert(g[5].1.contains(Feature::LlmKernels));
    assert(g[6].1.contains(Feature::Accelerate));
    assert(g[6].1.contains(Feature::CoreML));
    assert(fs[0] == Feature::XNNPack);
    assert(fs[1] == Feature::Threadpool);
    assert(fs[2] == Feature::OptimisedKernels);
    assert(fs[3] == Feature::TorchAO);
    assert(fs[4] == Feature::QuantisedKernels);
    assert(fs[5] == Feature::Llm);
    assert(fs[6] == Feature::LlmKernels);
    assert(fs[7] == Feature::CoreML);
    assert(fs[8] == Feature::Accelerate);
}

proof fn lemma_emits_contains(lines: Seq<Seq<char>>, l: Seq<char>)
    ensures
        emits(lines).contains(BuildStepView::Emit(l)) <==> lines.contains(l),
{
    if lines.contains(l) {
        let k = choose|k: int| 0 <= k < lines.len() && lines[k] == l;
        assert(emits(lines)[k] == BuildStepView::Emit(l));
    }
    if emits(lines).contains(BuildStepView::Emit(l)) {
        let k = choose|k: int| 0 <= k < emits(lines).len() && emits(lines)[k] == BuildStepView::Emit(l);
        assert(lines[k] == l);
    }
}

proof fn lemma_rerun_lines_shape(paths: Seq<Seq<char>>)
    ensures
        rerun_lines_of(paths).len() == paths.len(),
        forall|i: int|
            0 <= i < paths.len() ==> #[trigger] rerun_lines_of(paths)[i] == "cargo:rerun-if-changed="@
                + paths[i],
    decreases paths.len(),
{
    if paths.len() > 0 {
        lemma_rerun_lines_shape(paths.drop_last());
        assert forall|i: int| 0 <= i < paths.len() implies #[trigger] rerun_lines_of(paths)[i]
            == "cargo:rerun-if-changed="@ + paths[i] by {
            if i < paths.len() - 1 {
                assert(paths.drop_last()[i] == paths[i]);
            }
        }
    }
}

/// Each system library of an iOS merge comes with its own feature alone: the
/// merge steps link the Accelerate framework exactly when Accelerate is among
/// the features, and the CoreML framework, sqlite3 and `-ObjC` exactly when
/// CoreML is.
pub proof fn lemma_merge_frameworks_by_feature(dir: Seq<char>, order: Seq<Feature>, out: Seq<char>)
    ensures
        merge_steps(dir, order, out).contains(
            BuildStepView::Emit("cargo:rustc-link-lib=framework=Accelerate"@),
        ) <==> order.contains(Feature::Accelerate),
        merge_steps(dir, order, out).contains(
            BuildStepView::Emit("cargo:rustc-link-lib=framework=CoreML"@),
        ) <==> order.contains(Feature::CoreML),
        merge_steps(dir, order, out).contains(BuildStepView::Emit("cargo:rustc-link-lib=sqlite3"@))
            <==> order.contains(Feature::CoreML),
        merge_steps(dir, order, out).contains(BuildStepView::Emit("cargo:rustc-link-arg=-ObjC"@))
            <==> order.contains(Feature::CoreML),
{
    let acc = "cargo:rustc-link-lib=framework=Accelerate"@;
    let cml = "cargo:rustc-link-lib=framework=CoreML"@;
    let sql = "cargo:rustc-link-lib=sqlite3"@;
    let objc = "cargo:rustc-link-arg=-ObjC"@;
    let rr = "cargo:rerun-if-changed="@;
    reveal_strlit("cargo:rustc-link-lib=framework=Accelerate");
    reveal_strlit("cargo:rustc-link-lib=framework=CoreML");
    reveal_strlit("cargo:rustc-link-lib=sqlite3");
    reveal_strlit("cargo:rustc-link-arg=-ObjC");
    reveal_strlit("cargo:rerun-if-changed=");
    assert(acc.len() != cml.len() && acc.len() != sql.len() && acc.len() != objc.len());
    assert(cml.len() != sql.len() && cml.len() != objc.len() && sql.len() != objc.len());
    let set = order.to_set();
    let fw = framework_lines(set);
    let inputs = merge_inputs(dir, order);
    let reruns = rerun_lines_of(inputs);
    lemma_rerun_lines_shape(inputs);
    let steps = merge_steps(dir, order, out);
    let mid = seq![BuildStepView::MergeArchives(merged_path(out), inputs)];
    assert(steps == emits(fw) + mid + emits(reruns));
    let lines = seq![acc, cml, sql, objc];
    assert forall|k: int| 0 <= k < 4 implies {
        let l = #[trigger] lines[k];
        steps.contains(BuildStepView::Emit(l)) <==> fw.contains(l)
    } by {
        let l = lines[k];
        assert(l[7] == 'u');
        lemma_emits_contains(fw, l);
        lemma_emits_contains(reruns, l);
        if reruns.contains(l) {
            let j = choose|j: int| 0 <= j < reruns.len() && reruns[j] == l;
            assert(reruns[j][7] == rr[7]);
        }
        if steps.contains(BuildStepView::Emit(l)) {
            let j = choose|j: int| 0 <= j < steps.len() && steps[j] == BuildStepView::Emit(l);
            if j < emits(fw).len() {
                assert(emits(fw)[j] == steps[j]);
            } else if j == emits(fw).len() {
                assert(steps[j] == mid[0]);
            } else {
                assert(emits(reruns)[j - emits(fw).len() - 1] == steps[j]);
            }
        }
        if fw.contains(l) {
            let j = choose|j: int| 0 <= j < emits(fw).len() && emits(fw)[j] == BuildStepView::Emit(l);
            assert(steps[j] == emits(fw)[j]);
        }
    }
    assert(lines[0] == acc && lines[1] == cml && lines[2] == sql && lines[3] == objc);
    let c = set.contains(Feature::CoreML);
    let a = set.contains(Feature::Accelerate);
    let cpart = if c { seq![objc, cml, sql] } else { seq![] };
    let apart = if a { seq![acc] } else { seq![] };
    assert(fw == cpart + apart);
    assert forall|k: int| 0 <= k < 4 implies {
        let l = #[trigger] lines[k];
        fw.contains(l) <==> (cpart.contains(l) || apart.contains(l))
    } by {
        let l = lines[k];
        if fw.contains(l) {
            let j = choose|j: int| 0 <= j < fw.len() && fw[j] == l;
            if j < cpart.len() {
                assert(cpart[j] == l);
            } else {
                assert(apart[j - cpart.len()] == l);
            }
        }
        if cpart.contains(l) {
            let j = choose|j: int| 0 <= j < cpart.len() && cpart[j] == l;
            assert(fw[j] == l);
        }
        if apart.contains(l) {
            let j = choose|j: int| 0 <= j < apart.len() && apart[j] == l;
            assert(fw[cpart.len() + j] == l);
        }
    }
    if c {
        assert(cpart[0] == objc && cpart[1] == cml && cpart[2] == sql);
    }
    if a {
        assert(apart[0] == acc);
    }
    assert(set.contains(Feature::Accelerate) == order.contains(Feature::Accelerate));
    assert(set.contains(Feature::CoreML) == order.contains(Feature::CoreML));
}

proof fn lemma_all_feature_lines_contains(order: Seq<Feature>, dir: Seq<char>, i: int, j: int)
    requires
        0 <= i < order.len(),
        0 <= j < feature_link_lines(order[i], dir).len(),
    ensures
        all_feature_lines(order, dir).contains(feature_link_lines(order[i], dir)[j]),
    decreases order.len(),
{
    let init = order.drop_last();
    let a = all_feature_lines(init, dir);
    let b = feature_link_lines(order.last(), dir);
    let l = feature_link_lines(order[i], dir)[j];
    if i < order.len() - 1 {
        assert(init[i] == order[i]);
        lemma_all_feature_lines_contains(init, dir, i, j);
        let k = choose|k: int| 0 <= k < a.len() && a[k] == l;
        assert((a + b)[k] == l);
    } else {
        assert((a + b)[a.len() + j] == l);
    }
}

/// A macOS build links every line of every requested feature: for each
/// feature of the set, each of its link lines is emitted, as is the whole
/// runtime archive from the library directory.
pub proof fn lemma_macos_links_every_feature_line(
    dl: Seq<char>,
    order: Seq<Feature>,
    out: Seq<char>,
    xcode: Seq<char>,
)
    ensures
        merge_step_plan(Target::Apple(AppleTarget::MacOsArm64), dl, order, out, xcode).contains(
            BuildStepView::Emit("cargo::rustc-link-lib=static:+whole-archive=executorch"@),
        ),
        forall|i: int, j: int|
            0 <= i < order.len() && 0 <= j < feature_link_lines(order[i], dl).len() ==> merge_step_plan(
                Target::Apple(AppleTarget::MacOsArm64),
                dl,
                order,
                out,
                xcode,
            ).contains(BuildStepView::Emit(#[trigger] feature_link_lines(order[i], dl)[j])),
{
    let plan = merge_step_plan(Target::Apple(AppleTarget::MacOsArm64), dl, order, out, xcode);
    let head = seq![
        "cargo::rustc-link-search=native="@ + dl,
        "cargo::rustc-link-lib=static:+whole-archive=executorch"@,
    ];
    let lines = head + all_feature_lines(order, dl);
    let sw = emits(swift_lines(xcode));
    assert(plan == sw + emits(lines));
    assert(plan[sw.len() + 1int] == BuildStepView::Emit(lines[1]));
    assert forall|i: int, j: int|
        0 <= i < order.len() && 0 <= j < feature_link_lines(order[i], dl).len() implies plan.contains(
        BuildStepView::Emit(#[trigger] feature_link_lines(order[i], dl)[j]),
    ) by {
        let l = feature_link_lines(order[i], dl)[j];
        lemma_all_feature_lines_contains(order, dl, i, j);
        let k = choose|k: int| 0 <= k < all_feature_lines(order, dl).len() && all_feature_lines(
            order,
            dl,
        )[k] == l;
        assert(lines[2 + k] == l);
        assert(plan[sw.len() + 2int + k] == BuildStepView::Emit(l));
    }
}
} // verus!
