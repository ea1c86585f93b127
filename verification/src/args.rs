use vstd::prelude::*;
use crate::decimal::{chars_of, parse_unsigned, parse_unsigned_range};

verus! {

/// The settings a run is started with.
pub struct Args {
    /// Path of the JSON scene description.
    pub scene_file: String,
    /// Width of the rendered image in pixels.
    pub width: u32,
    /// Height of the rendered image in pixels.
    pub height: u32,
    /// Number of rendering threads; 0 lets the thread pool choose.
    pub workers: usize,
}

/// Why a command line was refused.
#[derive(Debug)]
pub enum ArgsError {
    /// `--scene` was the last argument.
    MissingSceneFile,
    /// `--size` was the last argument.
    MissingSize,
    /// The value after `--size` holds no `x`.
    SizeFormat,
    /// The text before the `x` of `--size` is not a `u32`.
    InvalidWidth(String),
    /// The text after the `x` of `--size` is not a `u32`.
    InvalidHeight(String),
    /// `--workers` was the last argument.
    MissingWorkers,
    /// The value after `--workers` is not a `usize`.
    InvalidWorkers(String),
    /// An argument that is none of the options.
    UnknownArgument(String),
}

pub struct ArgsModel {
    pub scene_file: Seq<char>,
    pub width: u32,
    pub height: u32,
    pub workers: usize,
}

pub enum ArgsErrorModel {
    MissingSceneFile,
    MissingSize,
    SizeFormat,
    InvalidWidth(Seq<char>),
    InvalidHeight(Seq<char>),
    MissingWorkers,
    InvalidWorkers(Seq<char>),
    UnknownArgument(Seq<char>),
}

impl View for Args {
    type V = ArgsModel;

    open spec fn view(&self) -> ArgsModel {
        ArgsModel { scene_file: self.scene_file@, width: self.width, height: self.height, workers: self.workers }
    }
}

impl View for ArgsError {
    type V = ArgsErrorModel;

    open spec fn view(&self) -> ArgsErrorModel {
        match self {
            ArgsError::MissingSceneFile => ArgsErrorModel::MissingSceneFile,
            ArgsError::MissingSize => ArgsErrorModel::MissingSize,
            ArgsError::SizeFormat => ArgsErrorModel::SizeFormat,
            ArgsError::InvalidWidth(s) => ArgsErrorModel::InvalidWidth(s@),
            ArgsError::InvalidHeight(s) => ArgsErrorModel::InvalidHeight(s@),
            ArgsError::MissingWorkers => ArgsErrorModel::MissingWorkers,
            ArgsError::InvalidWorkers(s) => ArgsErrorModel::InvalidWorkers(s@),
            ArgsError::UnknownArgument(s) => ArgsErrorModel::UnknownArgument(s@),
        }
    }
}

/// The settings used when the command line names none.
pub open spec fn default_args() -> ArgsModel {
    ArgsModel { scene_file: "scene01.json"@, width: 400, height: 300, workers: 0 }
}

/// `s` holds an `x` at `k`, and none before it.
pub open spec fn is_first_x(s: Seq<char>, k: int) -> bool {
    &&& 0 <= k < s.len()
    &&& s[k] == 'x'
    &&& forall|j: int| 0 <= j < k ==> s[j] != 'x'
}

/// The value of `--size`: `WIDTHxHEIGHT`, split at the first `x`, each side a `u32`.
pub open spec fn size_spec(s: Seq<char>) -> Result<(u32, u32), ArgsErrorModel> {
    if exists|k: int| is_first_x(s, k) {
        let k = choose|k: int| is_first_x(s, k);
        let w = s.subrange(0, k);
        let h = s.subrange(k + 1, s.len() as int);
        match parse_unsigned(w, u32::MAX as nat) {
            None => Err(ArgsErrorModel::InvalidWidth(w)),
            Some(wv) => match parse_unsigned(h, u32::MAX as nat) {
                None => Err(ArgsErrorModel::InvalidHeight(h)),
                Some(hv) => Ok((wv as u32, hv as u32)),
            },
        }
    } else {
        Err(ArgsErrorModel::SizeFormat)
    }
}

/// Reads the arguments from position `i` on, over the settings `acc` gathered so far.
pub open spec fn parse_from(args: Seq<Seq<char>>, i: int, acc: ArgsModel) -> Result<ArgsModel, ArgsErrorModel>
    decreases args.len() - i,
{
    if i < 0 || i >= args.len() {
        Ok(acc)
    } else if args[i] == "--scene"@ {
        if i + 1 >= args.len() {
            Err(ArgsErrorModel::MissingSceneFile)
        } else {
            parse_from(args, i + 2, ArgsModel { scene_file: args[i + 1], ..acc })
        }
    } else if args[i] == "--size"@ {
        if i + 1 >= args.len() {
            Err(ArgsErrorModel::MissingSize)
        } else {
            match size_spec(args[i + 1]) {
                Err(e) => Err(e),
                Ok((w, h)) => parse_from(args, i + 2, ArgsModel { width: w, height: h, ..acc }),
            }
        }
    } else if args[i] == "--workers"@ {
        if i + 1 >= args.len() {
            Err(ArgsErrorModel::MissingWorkers)
        } else {
            match parse_unsigned(args[i + 1], usize::MAX as nat) {
                None => Err(ArgsErrorModel::InvalidWorkers(args[i + 1])),
                Some(n) => parse_from(args, i + 2, ArgsModel { workers: n as usize, ..acc }),
            }
        }
    } else {
        Err(ArgsErrorModel::UnknownArgument(args[i]))
    }
}

/// What a command line `program [--scene FILE] [--size WxH] [--workers N] ...` sets:
/// the options after the program name, read left to right, a later one overriding
/// an earlier one.
pub open spec fn parse_spec(args: Seq<Seq<char>>) -> Result<ArgsModel, ArgsErrorModel> {
    parse_from(args, 1, default_args())
}

pub open spec fn args_view(args: Seq<String>) -> Seq<Seq<char>> {
    args.map_values(|s: String| s@)
}

/// `chars` spells the string literal `lit`.
fn spells(chars: &Vec<char>, lit: &str) -> (b: bool)
    ensures
        b == (chars@ == lit@),
{
    let l = chars_of(lit);
    if chars.len() != l.len() {
        return false;
    }
    let mut i: usize = 0;
    while i < l.len()
        invariant
            l@ == lit@,
            chars.len() == l.len(),
            0 <= i <= l.len(),
            forall|j: int| 0 <= j < i ==> chars@[j] == l@[j],
        decreases l.len() - i,
    {
        if chars[i] != l[i] {
            return false;
        }
        i = i + 1;
    }
    assert(chars@ =~= l@);
    true
}

/// Reads the value of `--size`.
fn parse_size(value: &String) -> (r: Result<(u32, u32), ArgsError>)
    ensures
        match r {
            Ok(wh) => size_spec(value@) == Ok::<(u32, u32), ArgsErrorModel>(wh),
            Err(e) => size_spec(value@) == Err::<(u32, u32), ArgsErrorModel>(e@),
        },
{
    let chars = chars_of(value.as_str());
    let mut k: usize = 0;
    while k < chars.len() && chars[k] != 'x'
        invariant
            chars@ == value@,
            0 <= k <= chars.len(),
            forall|j: int| 0 <= j < k ==> chars@[j] != 'x',
        decreases chars.len() - k,
    {
        k = k + 1;
    }
    if k == chars.len() {
        assert forall|m: int| !is_first_x(value@, m) by {
            if is_first_x(value@, m) {
                assert(chars@[m] == 'x');
            }
        }
        return Err(ArgsError::SizeFormat);
    }
    proof {
        assert(is_first_x(value@, k as int));
        let c = choose|m: int| is_first_x(value@, m);
        assert(is_first_x(value@, c));
        if c < k {
            assert(chars@[c] != 'x');
        }
        if c > k {
            assert(value@[k as int] != 'x');
        }
        assert(c == k);
    }
    let width = parse_unsigned_range(&chars, 0, k, u32::MAX as u64);
    assert(chars@.subrange(0, k as int) == value@.subrange(0, k as int));
    match width {
        None => {
            let w = value.as_str().substring_char(0, k).to_owned();
            Err(ArgsError::InvalidWidth(w))
        },
        Some(wv) => {
            let height = parse_unsigned_range(&chars, k + 1, chars.len(), u32::MAX as u64);
            assert(chars@.subrange(k + 1, chars.len() as int) == value@.subrange(k + 1, value@.len() as int));
            match height {
                None => {
                    let h = value.as_str().substring_char(k + 1, chars.len()).to_owned();
                    Err(ArgsError::InvalidHeight(h))
                },
                Some(hv) => Ok((wv as u32, hv as u32)),
            }
        },
    }
}

impl Args {
    /// Reads the command line `args` (the program name first, then the options).
    /// `--scene FILE` names the scene file, `--size WIDTHxHEIGHT` the image size and
    /// `--workers N` the number of rendering threads; anything else is refused.
    /// Unset settings keep their defaults: `scene01.json`, 400 x 300, and 0 workers.
    pub fn parse(args: &Vec<String>) -> (r: Result<Args, ArgsError>)
        ensures
            match r {
                Ok(a) => parse_spec(args_view(args@)) == Ok::<ArgsModel, ArgsErrorModel>(a@),
                Err(e) => parse_spec(args_view(args@)) == Err::<ArgsModel, ArgsErrorModel>(e@),
            },
    {
        let ghost v = args_view(args@);
        let mut scene_file = "scene01.json".to_owned();
        let mut width: u32 = 400;
        let mut height: u32 = 300;
        let mut workers: usize = 0;
        let mut i: usize = 1;
        while i < args.len()
            invariant
                v == args_view(args@),
                v.len() == args.len(),
                1 <= i,
                parse_spec(v) == parse_from(
                    v,
                    i as int,
                    ArgsModel { scene_file: scene_file@, width, height, workers },
                ),
            decreases args.len() - i,
        {
            let arg = chars_of(args[i].as_str());
            assert(v[i as int] == args@[i as int]@);
            if spells(&arg, "--scene") {
                if i + 1 >= args.len() {
                    return Err(ArgsError::MissingSceneFile);
                }
                assert(v[i + 1] == args@[i + 1]@);
                scene_file = args[i + 1].clone();
                i = i + 2;
            } else if spells(&arg, "--size") {
                if i + 1 >= args.len() {
                    return Err(ArgsError::MissingSize);
                }
                assert(v[i + 1] == args@[i + 1]@);
                match parse_size(&args[i + 1]) {
                    Err(e) => {
                        return Err(e);
                    },
                    Ok((w, h)) => {
                        width = w;
                        height = h;
                    },
                }
                i = i + 2;
            } else if spells(&arg, "--workers") {
                if i + 1 >= args.len() {
                    return Err(ArgsError::MissingWorkers);
                }
                assert(v[i + 1] == args@[i + 1]@);
                let value = chars_of(args[i + 1].as_str());
                match parse_unsigned_range(&value, 0, value.len(), usize::MAX as u64) {
                    None => {
                        assert(value@.subrange(0, value@.len() as int) =~= v[i + 1]);
                        return Err(ArgsError::InvalidWorkers(args[i + 1].clone()));
                    },
                    Some(n) => {
                        assert(value@.subrange(0, value@.len() as int) =~= v[i + 1]);
                        workers = n as usize;
                    },
                }
                i = i + 2;
            } else {
                return Err(ArgsError::UnknownArgument(args[i].clone()));
            }
        }
        Ok(Args { scene_file, width, height, workers })
    }
}

} // verus!
