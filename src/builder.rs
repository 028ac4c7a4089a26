use vstd::prelude::*;

use crate::config::{clone_strings, Config, ConfigMap, ConfigView, resolve, builtin_table};
use crate::sdk::{SdkPath, SdkPathError};
use crate::text::{apply_replacements, chars_of, push_all, replace_chars, string_of};

verus! {

/// What a builder holds, as values.
pub struct BuilderView {
    pub framework: Seq<char>,
    pub sdk: Option<Seq<char>>,
    pub target: Option<Seq<char>>,
    pub config: ConfigView,
}

/// The compiler flag that selects target `t`.
pub open spec fn target_flag(t: Seq<char>) -> Seq<char> {
    "--target="@ + t
}

/// The compiler flags for a build against `sdk`, for `target` where one is set.
pub open spec fn clang_args_for(target: Option<Seq<char>>, sdk: Seq<char>) -> Seq<Seq<char>> {
    let base = seq!["-x"@, "objective-c"@, "-fblocks"@, "-fmodules"@];
    let with_target = match target {
        Some(t) => base.push(target_flag(t)),
        None => base,
    };
    with_target + seq!["-isysroot"@, sdk]
}

/// The name of the header that stands for a framework.
pub open spec fn header_name_for(framework: Seq<char>) -> Seq<char> {
    framework + ".h"@
}

/// The text of the header that stands for a framework: one module import.
pub open spec fn header_contents_for(framework: Seq<char>) -> Seq<char> {
    "@import "@ + framework + ";"@
}

/// The parameters handed to the binding generator.
#[derive(Debug)]
pub struct BindgenParams {
    /// Flags for the compiler front end.
    pub clang_args: Vec<String>,
    /// Whether layout tests are generated.
    pub layout_tests: bool,
    /// Whether the generated code is formatted.
    pub rustfmt_bindings: bool,
    /// Types whose layout the generated code does not model.
    pub opaque_types: Vec<String>,
    /// Items left out of the generated code.
    pub blocklist_items: Vec<String>,
    /// The name of the header the generator reads.
    pub header_name: String,
    /// The text of that header.
    pub header_contents: String,
}

impl BindgenParams {
    /// The flags for the compiler front end, as values.
    pub open spec fn spec_clang_args(&self) -> Seq<Seq<char>> {
        self.clang_args.deep_view()
    }
}

/// Collects what is needed to generate bindings for one framework.
#[derive(Debug)]
pub struct Builder {
    framework: String,
    sdk: Option<SdkPath>,
    target: Option<String>,
    config: Config,
}

impl View for Builder {
    type V = BuilderView;

    closed spec fn view(&self) -> BuilderView {
        BuilderView {
            framework: self.framework@,
            sdk: match self.sdk {
                Some(p) => Some(p.spec_path()),
                None => None,
            },
            target: match self.target {
                Some(t) => Some(t@),
                None => None,
            },
            config: self.config@,
        }
    }
}

/// `a` followed by `b`.
fn concat(a: &str, b: &str) -> (r: String)
    ensures
        r@ == a@ + b@,
{
    let mut v = chars_of(a);
    let w = chars_of(b);
    push_all(&mut v, &w);
    string_of(&v)
}

impl Builder {
    /// A builder for `framework` with the given settings, no SDK and no target.
    pub fn new(framework: &str, config: Config) -> (r: Builder)
        ensures
            r@ == (BuilderView { framework: framework@, sdk: None, target: None, config: config@ }),
    {
        Builder { framework: framework.to_owned(), sdk: None, target: None, config }
    }

    /// A builder for `framework` with the settings that come with the library.
    pub fn with_builtin_config(framework: &str) -> (r: Builder)
        ensures
            r@ == (BuilderView {
                framework: framework@,
                sdk: None,
                target: None,
                config: resolve(builtin_table(), framework@),
            }),
    {
        Self::new(framework, ConfigMap::with_builtin_config().build(framework))
    }

    /// Sets the SDK root; fails where `path` is not a valid one. An SDK may
    /// be set once.
    pub fn sdk(self, path: &str) -> (r: Result<Builder, SdkPathError>)
        requires
            self@.sdk is None,
        ensures
            path@.len() == 0 <==> r is Err,
            r matches Err(e) ==> e == SdkPathError::Empty,
            r matches Ok(b) ==> b@ == (BuilderView { sdk: Some(path@), ..self@ }),
    {
        match SdkPath::new(path) {
            Err(e) => Err(e),
            Ok(p) => {
                let mut b = self;
                b.sdk = Some(p);
                Ok(b)
            },
        }
    }

    /// Sets the target triple. A target may be set once.
    pub fn target(self, target: &str) -> (r: Builder)
        requires
            self@.target is None,
        ensures
            r@ == (BuilderView { target: Some(target@), ..self@ }),
    {
        let mut b = self;
        b.target = Some(target.to_owned());
        b
    }

    /// The parameters for the binding generator. The SDK must be set.
    pub fn bindgen_builder(&self) -> (r: BindgenParams)
        requires
            self@.sdk is Some,
        ensures
            r.spec_clang_args() == clang_args_for(self@.target, self@.sdk->Some_0),
            r.layout_tests == self@.config.layout_tests,
            r.rustfmt_bindings,
            r.opaque_types.deep_view() == self@.config.opaque_types,
            r.blocklist_items.deep_view() == self@.config.blocklist_items,
            r.header_name@ == header_name_for(self@.framework),
            r.header_contents@ == header_contents_for(self@.framework),
    {
        let mut clang_args: Vec<String> = Vec::new();
        clang_args.push("-x".to_owned());
        clang_args.push("objective-c".to_owned());
        clang_args.push("-fblocks".to_owned());
        clang_args.push("-fmodules".to_owned());
        match &self.target {
            Some(t) => {
                clang_args.push(concat("--target=", t.as_str()));
            },
            None => {},
        }
        let sdk = self.sdk.as_ref().unwrap();
        clang_args.push("-isysroot".to_owned());
        clang_args.push(sdk.path().to_owned());
        assert(clang_args.deep_view() =~= clang_args_for(self@.target, self@.sdk->Some_0));
        let with_ext = concat(self.framework.as_str(), ".h");
        let import_head = concat("@import ", self.framework.as_str());
        let import_line = concat(import_head.as_str(), ";");
        BindgenParams {
            clang_args,
            layout_tests: self.config.layout_tests,
            rustfmt_bindings: true,
            opaque_types: clone_strings(&self.config.opaque_types),
            blocklist_items: clone_strings(&self.config.blocklist_items),
            header_name: with_ext,
            header_contents: import_line,
        }
    }

    /// The generator's output for `self.bindgen_builder()` with every
    /// configured replacement applied to it, in order. The SDK must be set.
    pub fn generate(&self, bindings: &str) -> (r: String)
        requires
            self@.sdk is Some,
        ensures
            r@ == apply_replacements(bindings@, self@.config.replacements),
    {
        let reps = &self.config.replacements;
        let mut out = chars_of(bindings);
        let mut k: usize = 0;
        while k < reps.len()
            invariant
                k <= reps@.len(),
                reps@ == self.config.replacements@,
                out@ == apply_replacements(bindings@, self@.config.replacements.take(k as int)),
            decreases reps@.len() - k,
        {
            let from = chars_of(reps[k].old.as_str());
            let to = chars_of(reps[k].new.as_str());
            out = replace_chars(&out, &from, &to);
            k += 1;
            assert(self@.config.replacements.take(k as int).drop_last()
                =~= self@.config.replacements.take(k - 1));
        }
        assert(self@.config.replacements.take(k as int) =~= self@.config.replacements);
        string_of(&out)
    }
}

/// A flag that selects the compilation target.
pub open spec fn is_target_flag(a: Seq<char>) -> bool {
    a.len() >= 9 && a.take(9) == "--target="@
}

/// How many of `args` select the compilation target.
pub open spec fn count_target_flags(args: Seq<Seq<char>>) -> nat
    decreases args.len(),
{
    if args.len() == 0 {
        0
    } else {
        count_target_flags(args.drop_last()) + if is_target_flag(args.last()) {
            1nat
        } else {
            0nat
        }
    }
}

proof fn lemma_count_push(args: Seq<Seq<char>>, a: Seq<char>)
    ensures
        count_target_flags(args.push(a)) == count_target_flags(args) + if is_target_flag(a) {
            1nat
        } else {
            0nat
        },
{
    assert(args.push(a).drop_last() =~= args);
}

/// The compiler flags select the target exactly once where a target is set,
/// with the flag made from it, and not at all where none is (for an SDK path
/// that does not itself read as such a flag).
pub proof fn lemma_target_flags(target: Option<Seq<char>>, sdk: Seq<char>)
    requires
        !is_target_flag(sdk),
    ensures
        count_target_flags(clang_args_for(target, sdk)) == if target is Some {
            1nat
        } else {
            0nat
        },
        target matches Some(t) ==> clang_args_for(target, sdk).contains(target_flag(t)),
{
    reveal_strlit("-x");
    reveal_strlit("objective-c");
    reveal_strlit("-fblocks");
    reveal_strlit("-fmodules");
    reveal_strlit("-isysroot");
    reveal_strlit("--target=");
    assert("objective-c"@.take(9)[0] != "--target="@[0]);
    assert("-fmodules"@.take(9)[1] != "--target="@[1]);
    assert("-isysroot"@.take(9)[1] != "--target="@[1]);
    let e = Seq::<Seq<char>>::empty();
    let base = seq!["-x"@, "objective-c"@, "-fblocks"@, "-fmodules"@];
    assert(base =~= e.push("-x"@).push("objective-c"@).push("-fblocks"@).push("-fmodules"@));
    lemma_count_push(e, "-x"@);
    lemma_count_push(e.push("-x"@), "objective-c"@);
    lemma_count_push(e.push("-x"@).push("objective-c"@), "-fblocks"@);
    lemma_count_push(e.push("-x"@).push("objective-c"@).push("-fblocks"@), "-fmodules"@);
    assert(count_target_flags(base) == 0);
    let with_target = match target {
        Some(t) => base.push(target_flag(t)),
        None => base,
    };
    if let Some(t) = target {
        assert(target_flag(t).take(9) =~= "--target="@);
        lemma_count_push(base, target_flag(t));
        assert(clang_args_for(target, sdk)[4] == target_flag(t));
    }
    assert(count_target_flags(with_target) == if target is Some {
        1nat
    } else {
        0nat
    });
    assert(clang_args_for(target, sdk) =~= with_target.push("-isysroot"@).push(sdk));
    lemma_count_push(with_target, "-isysroot"@);
    lemma_count_push(with_target.push("-isysroot"@), sdk);
}

} // verus!
