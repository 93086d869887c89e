//! The command line of the SpeADL-to-Python generator.
use vstd::prelude::*;

use crate::modules::common::lexer::chars_of;

verus! {

/// The options given on the command line.
pub struct CliOptions {
    pub keep_intermediate: bool,
    pub inputs: Vec<String>,
    pub outputs: Vec<String>,
}

/// Why the command line was refused.
#[derive(Clone, Debug, PartialEq, Eq)]
pub enum CliError {
    /// The flag (`-i`, `--input`, `-o`, `--output`) ends the command line.
    MissingPath(String),
    /// An argument that is no option.
    UnknownArgument(String),
    /// One output file was given for several inputs.
    SingleOutputFileForManyInputs,
    /// As many output paths as `outputs` were given for `inputs` input files.
    OutputCount { outputs: usize, inputs: usize },
}

/// The value of a `CliError`.
pub enum CliErrorView {
    MissingPath(Seq<char>),
    UnknownArgument(Seq<char>),
    SingleOutputFileForManyInputs,
    OutputCount { outputs: nat, inputs: nat },
}

impl View for CliError {
    type V = CliErrorView;

    open spec fn view(&self) -> CliErrorView {
        match self {
            CliError::MissingPath(s) => CliErrorView::MissingPath(s@),
            CliError::UnknownArgument(s) => CliErrorView::UnknownArgument(s@),
            CliError::SingleOutputFileForManyInputs => CliErrorView::SingleOutputFileForManyInputs,
            CliError::OutputCount { outputs, inputs } => CliErrorView::OutputCount {
                outputs: *outputs as nat,
                inputs: *inputs as nat,
            },
        }
    }
}

/// The value of `CliOptions`.
#[verifier::ext_equal]
pub struct OptionsView {
    pub keep_intermediate: bool,
    pub inputs: Seq<Seq<char>>,
    pub outputs: Seq<Seq<char>>,
}

impl CliOptions {
    /// The value of the options.
    pub open spec fn value(&self) -> OptionsView {
        OptionsView {
            keep_intermediate: self.keep_intermediate,
            inputs: crate::ast::texts(self.inputs@),
            outputs: crate::ast::texts(self.outputs@),
        }
    }
}

/// `s` starts with `prefix`.
pub open spec fn starts_with(s: Seq<char>, prefix: Seq<char>) -> bool {
    prefix.len() <= s.len() && s.take(prefix.len() as int) == prefix
}

/// The options that `args[i..]` adds to `acc`, or why they are refused.
pub open spec fn parse_from(args: Seq<Seq<char>>, i: int, acc: OptionsView) -> Result<
    OptionsView,
    CliErrorView,
>
    decreases args.len() - i,
{
    if i < 0 || i >= args.len() {
        Ok(acc)
    } else {
        let a = args[i];
        if a == "--keep-intermediate"@ {
            parse_from(args, i + 1, OptionsView { keep_intermediate: true, ..acc })
        } else if a == "-i"@ || a == "--input"@ {
            if i + 1 < args.len() {
                parse_from(args, i + 2, OptionsView { inputs: acc.inputs.push(args[i + 1]), ..acc })
            } else {
                Err(CliErrorView::MissingPath(a))
            }
        } else if a == "-o"@ || a == "--output"@ {
            if i + 1 < args.len() {
                parse_from(
                    args,
                    i + 2,
                    OptionsView { outputs: acc.outputs.push(args[i + 1]), ..acc },
                )
            } else {
                Err(CliErrorView::MissingPath(a))
            }
        } else if starts_with(a, "--input="@) {
            parse_from(
                args,
                i + 1,
                OptionsView { inputs: acc.inputs.push(a.skip("--input="@.len() as int)), ..acc },
            )
        } else if starts_with(a, "--output="@) {
            parse_from(
                args,
                i + 1,
                OptionsView { outputs: acc.outputs.push(a.skip("--output="@.len() as int)), ..acc },
            )
        } else {
            Err(CliErrorView::UnknownArgument(a))
        }
    }
}

/// No options.
pub open spec fn no_options() -> OptionsView {
    OptionsView { keep_intermediate: false, inputs: Seq::empty(), outputs: Seq::empty() }
}

/// The output path of each input file, `None` where the default one is meant.
pub open spec fn output_plan(outputs: Seq<Seq<char>>, input_count: nat, single_output_is_file: bool) -> Result<
    Seq<Option<Seq<char>>>,
    CliErrorView,
> {
    if outputs.len() == 0 {
        Ok(Seq::new(input_count, |i: int| None))
    } else if outputs.len() == 1 {
        if input_count == 1 {
            Ok(seq![Some(outputs[0])])
        } else if single_output_is_file {
            Err(CliErrorView::SingleOutputFileForManyInputs)
        } else {
            Ok(Seq::new(input_count, |i: int| Some(outputs[0])))
        }
    } else if outputs.len() == input_count {
        Ok(outputs.map_values(|o: Seq<char>| Some(o)))
    } else {
        Err(CliErrorView::OutputCount { outputs: outputs.len(), inputs: input_count })
    }
}

/// The characters of each optional path.
pub open spec fn opt_texts(v: Seq<Option<String>>) -> Seq<Option<Seq<char>>> {
    v.map_values(|o: Option<String>| crate::ast::opt_text(o))
}

/// `s` without `prefix`, where `s` starts with it.
pub fn strip_prefix(s: &str, prefix: &str) -> (r: Option<String>)
    ensures
        match r {
            Some(rest) => starts_with(s@, prefix@) && rest@ == s@.skip(prefix@.len() as int),
            None => !starts_with(s@, prefix@),
        },
{
    let cs = chars_of(s);
    let ps = chars_of(prefix);
    if ps.len() > cs.len() {
        return None;
    }
    let mut i: usize = 0;
    while i < ps.len()
        invariant
            ps.len() <= cs.len(),
            i <= ps.len(),
            cs@ == s@,
            ps@ == prefix@,
            forall|j: int| 0 <= j < i ==> cs@[j] == ps@[j],
        decreases ps.len() - i,
    {
        if cs[i] != ps[i] {
            assert(s@.take(prefix@.len() as int)[i as int] != prefix@[i as int]);
            return None;
        }
        i = i + 1;
    }
    assert(s@.take(prefix@.len() as int) =~= prefix@);
    let mut rest = String::new();
    let mut j: usize = ps.len();
    while j < cs.len()
        invariant
            ps.len() <= j <= cs.len(),
            cs@ == s@,
            ps@ == prefix@,
            rest@ == s@.subrange(prefix@.len() as int, j as int),
        decreases cs.len() - j,
    {
        rest.push(cs[j]);
        j = j + 1;
        assert(rest@ =~= s@.subrange(prefix@.len() as int, j as int));
    }
    assert(rest@ =~= s@.skip(prefix@.len() as int));
    Some(rest)
}

impl CliOptions {
    /// Reads the options from the command-line arguments, program name left out.
    pub fn parse(args: &Vec<String>) -> (r: Result<CliOptions, CliError>)
        ensures
            match parse_from(crate::ast::texts(args@), 0, no_options()) {
                Ok(v) => r matches Ok(o) && o.value() == v,
                Err(e) => r matches Err(x) && x@ == e,
            },
    {
        let ghost all = crate::ast::texts(args@);
        let mut options = CliOptions {
            keep_intermediate: false,
            inputs: Vec::new(),
            outputs: Vec::new(),
        };
        assert(options.value().inputs =~= Seq::<Seq<char>>::empty());
        assert(options.value().outputs =~= Seq::<Seq<char>>::empty());
        assert(options.value() =~= no_options());
        let mut i: usize = 0;
        while i < args.len()
            invariant
                i <= args.len(),
                all == crate::ast::texts(args@),
                parse_from(all, i as int, options.value()) == parse_from(all, 0, no_options()),
            decreases args.len() - i,
        {
            let arg = &args[i];
            assert(all[i as int] == arg@);
            let ghost acc = options.value();
            if *arg == "--keep-intermediate".to_owned() {
                options.keep_intermediate = true;
                assert(options.value() =~= OptionsView { keep_intermediate: true, ..acc });
                i = i + 1;
            } else if *arg == "-i".to_owned() || *arg == "--input".to_owned() {
                if i + 1 < args.len() {
                    options.inputs.push(args[i + 1].clone());
                    assert(all[i + 1] == args@[i + 1]@);
                    assert(options.value().inputs =~= acc.inputs.push(all[i + 1]));
                    assert(options.value() =~= OptionsView {
                        inputs: acc.inputs.push(all[i + 1]),
                        ..acc
                    });
                    i = i + 2;
                } else {
                    return Err(CliError::MissingPath(arg.clone()));
                }
            } else if *arg == "-o".to_owned() || *arg == "--output".to_owned() {
                if i + 1 < args.len() {
                    options.outputs.push(args[i + 1].clone());
                    assert(all[i + 1] == args@[i + 1]@);
                    assert(options.value().outputs =~= acc.outputs.push(all[i + 1]));
                    assert(options.value() =~= OptionsView {
                        outputs: acc.outputs.push(all[i + 1]),
                        ..acc
                    });
                    i = i + 2;
                } else {
                    return Err(CliError::MissingPath(arg.clone()));
                }
            } else {
                match strip_prefix(arg.as_str(), "--input=") {
                    Some(value) => {
                        options.inputs.push(value);
                        assert(options.value().inputs =~= acc.inputs.push(
                            arg@.skip("--input="@.len() as int),
                        ));
                        assert(options.value() =~= OptionsView {
                            inputs: acc.inputs.push(arg@.skip("--input="@.len() as int)),
                            ..acc
                        });
                        i = i + 1;
                    },
                    None => match strip_prefix(arg.as_str(), "--output=") {
                        Some(value) => {
                            options.outputs.push(value);
                            assert(options.value().outputs =~= acc.outputs.push(
                                arg@.skip("--output="@.len() as int),
                            ));
                            assert(options.value() =~= OptionsView {
                                outputs: acc.outputs.push(arg@.skip("--output="@.len() as int)),
                                ..acc
                            });
                            i = i + 1;
                        },
                        None => {
                            return Err(CliError::UnknownArgument(arg.clone()));
                        },
                    },
                }
            }
        }
        Ok(options)
    }

    /// The output path of each of `input_count` input files; `single_output_is_file`
    /// tells whether a lone output path names a file rather than a directory.
    pub fn output_paths(&self, input_count: usize, single_output_is_file: bool) -> (r: Result<
        Vec<Option<String>>,
        CliError,
    >)
        ensures
            match output_plan(self.value().outputs, input_count as nat, single_output_is_file) {
                Ok(v) => r matches Ok(x) && opt_texts(x@) == v,
                Err(e) => r matches Err(x) && x@ == e,
            },
    {
        let count = self.outputs.len();
        if count == 0 {
            let mut v: Vec<Option<String>> = Vec::new();
            for k in 0..input_count
                invariant
                    opt_texts(v@) =~= Seq::new(k as nat, |i: int| None::<Seq<char>>),
            {
                let ghost before = v@;
                v.push(None);
                assert(opt_texts(v@) =~= opt_texts(before).push(None));
            }
            Ok(v)
        } else if count == 1 {
            assert(self.value().outputs[0] == self.outputs@[0]@);
            if input_count == 1 {
                let mut v: Vec<Option<String>> = Vec::new();
                v.push(Some(self.outputs[0].clone()));
                assert(opt_texts(v@) =~= seq![Some(self.value().outputs[0])]);
                Ok(v)
            } else if single_output_is_file {
                Err(CliError::SingleOutputFileForManyInputs)
            } else {
                let mut v: Vec<Option<String>> = Vec::new();
                for k in 0..input_count
                    invariant
                        self.outputs.len() == 1,
                        self.value().outputs[0] == self.outputs@[0]@,
                        opt_texts(v@) =~= Seq::new(
                            k as nat,
                            |i: int| Some(self.value().outputs[0]),
                        ),
                {
                    let ghost before = v@;
                    v.push(Some(self.outputs[0].clone()));
                    assert(opt_texts(v@) =~= opt_texts(before).push(Some(self.value().outputs[0])));
                }
                Ok(v)
            }
        } else if count == input_count {
            let mut v: Vec<Option<String>> = Vec::new();
            for k in 0..count
                invariant
                    count == self.outputs.len(),
                    opt_texts(v@) =~= self.value().outputs.take(k as int).map_values(
                        |o: Seq<char>| Some(o),
                    ),
            {
                let ghost before = v@;
                v.push(Some(self.outputs[k].clone()));
                assert(self.value().outputs[k as int] == self.outputs@[k as int]@);
                assert(opt_texts(v@) =~= opt_texts(before).push(Some(self.value().outputs[k as int])));
                assert(self.value().outputs.take(k + 1) =~= self.value().outputs.take(k as int).push(
                    self.value().outputs[k as int],
                ));
            }
            assert(self.value().outputs.take(count as int) =~= self.value().outputs);
            Ok(v)
        } else {
            Err(CliError::OutputCount { outputs: count, inputs: input_count })
        }
    }
}

} // verus!
