//! How worker processes are started: where their executable is, and the
//! arguments that carry their parameters.
//!
//! [`build_worker_command`] and [`parse_worker_args`] are inverses.
use vstd::prelude::*;

use crate::sink::config::SinkConfig;
use crate::sink::error;
use crate::sink::error::{Result, TesseraSinkError};
use crate::sink::worker;
use crate::sink::worker::{WorkerParams, WorkerParamsView};
use crate::text;

verus! {

/// Name of the worker executable.
pub const WORKER_BIN_NAME: &'static str = "tessera-sink-worker";

/// Environment variable that can name the worker executable.
pub const WORKER_BIN_ENV: &'static str = "TESSERA_SINK_WORKER_BIN";

/// Key of the pool description.
pub const ARG_POOL_DESC: &'static str = "--pool-description";

/// Key of the control channel description.
pub const ARG_CONTROL_DESC: &'static str = "--control-description";

/// Key of the ack channel description.
pub const ARG_ACK_DESC: &'static str = "--ack-description";

/// Key of the pool slot count.
pub const ARG_POOL_SLOT_COUNT: &'static str = "--pool-slot-count";

/// Key of the pool slot size.
pub const ARG_POOL_SLOT_SIZE: &'static str = "--pool-slot-size-bytes";

/// Key of the control channel slot count.
pub const ARG_CONTROL_SLOT_COUNT: &'static str = "--control-slot-count";

/// Key of the control channel slot size.
pub const ARG_CONTROL_SLOT_SIZE: &'static str = "--control-slot-size-bytes";

/// Key of the ack channel slot count.
pub const ARG_ACK_SLOT_COUNT: &'static str = "--ack-slot-count";

/// Key of the ack channel slot size.
pub const ARG_ACK_SLOT_SIZE: &'static str = "--ack-slot-size-bytes";

/// Key of the worker index.
pub const ARG_WORKER_ID: &'static str = "--worker-id";

/// Key of the order to recreate the control channel.
pub const ARG_FORCE_RECREATE: &'static str = "--force-recreate";

/// What to run for a worker.
#[derive(Clone, Debug)]
pub struct WorkerCommand {
    /// The executable.
    pub program: String,
    /// Its arguments.
    pub args: Vec<String>,
}

/// What the strings of a list say.
pub open spec fn texts(list: Seq<String>) -> Seq<Seq<char>> {
    Seq::new(list.len(), |i: int| list[i]@)
}

/// The arguments that carry the parameters of a worker.
pub open spec fn args_of(p: WorkerParamsView) -> Seq<Seq<char>> {
    seq![
        ARG_POOL_DESC@,
        p.pool_description,
        ARG_CONTROL_DESC@,
        p.control_description,
        ARG_ACK_DESC@,
        p.ack_description,
        ARG_POOL_SLOT_COUNT@,
        text::dec(p.pool_slot_count as nat),
        ARG_POOL_SLOT_SIZE@,
        text::dec(p.pool_slot_size_bytes as nat),
        ARG_CONTROL_SLOT_COUNT@,
        text::dec(p.control_slot_count as nat),
        ARG_CONTROL_SLOT_SIZE@,
        text::dec(p.control_slot_size_bytes as nat),
        ARG_ACK_SLOT_COUNT@,
        text::dec(p.ack_slot_count as nat),
        ARG_ACK_SLOT_SIZE@,
        text::dec(p.ack_slot_size_bytes as nat),
        ARG_WORKER_ID@,
        text::dec(p.worker_id as nat),
    ] + if p.force_recreate {
        seq![ARG_FORCE_RECREATE@, "true"@]
    } else {
        Seq::empty()
    }
}

fn push_text(args: &mut Vec<String>, key: &str, val: &str)
    ensures
        texts(final(args)@) == texts(old(args)@) + seq![key@, val@],
{
    let ghost before = args@;
    args.push(String::from_str(key));
    args.push(String::from_str(val));
    assert(texts(args@) =~= texts(before) + seq![key@, val@]);
}

fn push_number(args: &mut Vec<String>, key: &str, val: u32)
    ensures
        texts(final(args)@) == texts(old(args)@) + seq![key@, text::dec(val as nat)],
{
    let mut s = String::new();
    text::push_dec(&mut s, val as u64);
    assert(s@ =~= text::dec(val as nat));
    push_text(args, key, s.as_str());
}

/// What to run for a worker with these parameters.
pub fn build_worker_command(bin: &str, params: &WorkerParams) -> (r: WorkerCommand)
    ensures
        r.program@ == bin@,
        texts(r.args@) == args_of(params@),
{
    let mut args: Vec<String> = Vec::new();
    assert(texts(args@) =~= Seq::<Seq<char>>::empty());
    push_text(&mut args, ARG_POOL_DESC, params.pool_description.as_str());
    push_text(&mut args, ARG_CONTROL_DESC, params.control_description.as_str());
    push_text(&mut args, ARG_ACK_DESC, params.ack_description.as_str());
    push_number(&mut args, ARG_POOL_SLOT_COUNT, params.pool_slot_count);
    push_number(&mut args, ARG_POOL_SLOT_SIZE, params.pool_slot_size_bytes);
    push_number(&mut args, ARG_CONTROL_SLOT_COUNT, params.control_slot_count);
    push_number(&mut args, ARG_CONTROL_SLOT_SIZE, params.control_slot_size_bytes);
    push_number(&mut args, ARG_ACK_SLOT_COUNT, params.ack_slot_count);
    push_number(&mut args, ARG_ACK_SLOT_SIZE, params.ack_slot_size_bytes);
    push_number(&mut args, ARG_WORKER_ID, params.worker_id);
    if params.force_recreate {
        push_text(&mut args, ARG_FORCE_RECREATE, "true");
    }
    assert(texts(args@) =~= args_of(params@));
    WorkerCommand { program: String::from_str(bin), args }
}

/// The digits of a number with or without a plus sign.
pub open spec fn digits_of(s: Seq<char>) -> Seq<char> {
    if s.len() > 0 && s[0] == '+' {
        s.skip(1)
    } else {
        s
    }
}

/// The string spells a 32-bit number in decimal.
pub open spec fn spells_u32(s: Seq<char>) -> bool {
    let d = digits_of(s);
    d.len() > 0 && text::all_digits(d) && text::digits_value(d) <= u32::MAX
}

/// What std says of a string that is no 32-bit number.
pub uninterp spec fn parse_error_text(s: Seq<char>) -> Seq<char>;

/// `str::parse::<u32>` of std, with its error in words: the number that the
/// string spells in decimal digits, with an optional plus sign before them.
/// Of the words the contract claims only that they depend on nothing but
/// the string.
#[verifier::external_body]
fn u32_from_str(s: &str) -> (r: core::result::Result<u32, String>)
    ensures
        match r {
            Ok(n) => spells_u32(s@) && n == text::digits_value(digits_of(s@)),
            Err(words) => !spells_u32(s@) && words@ == parse_error_text(s@),
        },
{
    s.parse::<u32>().map_err(|e| format!("{e}"))
}

/// Words for a value that is no number.
pub open spec fn bad_number_words(key: Seq<char>, val: Seq<char>) -> Seq<char> {
    "invalid u32 for "@ + key + ": "@ + text::debug_text(val) + " ("@ + parse_error_text(val) + ")"@
}

/// The number that a value spells, or words for one that spells none.
pub open spec fn number(key: Seq<char>, val: Seq<char>) -> core::result::Result<u32, Seq<char>> {
    if spells_u32(val) {
        Ok(text::digits_value(digits_of(val)) as u32)
    } else {
        Err(bad_number_words(key, val))
    }
}

/// The number that the value of an argument spells.
pub fn parse_u32(key: &str, val: &str) -> (r: Result<u32>)
    ensures
        match number(key@, val@) {
            Ok(n) => r == Ok::<u32, TesseraSinkError>(n),
            Err(words) => r matches Err(e) && error::is_config(e, words),
        },
{
    match u32_from_str(val) {
        Ok(n) => Ok(n),
        Err(why) => {
            let mut words = String::from_str("invalid u32 for ");
            words.append(key);
            words.append(": ");
            words.append(text::debug_string(val).as_str());
            words.append(" (");
            words.append(why.as_str());
            words.append(")");
            Err(TesseraSinkError::Config(words))
        },
    }
}

/// What a value says as a truth value, or words for one that says none.
pub open spec fn flag(key: Seq<char>, val: Seq<char>) -> core::result::Result<bool, Seq<char>> {
    if val == "true"@ {
        Ok(true)
    } else if val == "false"@ {
        Ok(false)
    } else {
        Err("invalid bool for "@ + key + ": "@ + text::debug_text(val))
    }
}

fn parse_flag(key: &str, val: &str) -> (r: Result<bool>)
    ensures
        match flag(key@, val@) {
            Ok(b) => r == Ok::<bool, TesseraSinkError>(b),
            Err(words) => r matches Err(e) && error::is_config(e, words),
        },
{
    if text::same(val, "true") {
        Ok(true)
    } else if text::same(val, "false") {
        Ok(false)
    } else {
        let mut words = String::from_str("invalid bool for ");
        words.append(key);
        words.append(": ");
        words.append(text::debug_string(val).as_str());
        Err(TesseraSinkError::Config(words))
    }
}

/// The parameters that were found so far.
struct Found {
    pool_description: Option<String>,
    control_description: Option<String>,
    ack_description: Option<String>,
    pool_slot_count: Option<u32>,
    pool_slot_size_bytes: Option<u32>,
    control_slot_count: Option<u32>,
    control_slot_size_bytes: Option<u32>,
    ack_slot_count: Option<u32>,
    ack_slot_size_bytes: Option<u32>,
    worker_id: Option<u32>,
    force_recreate: bool,
}

/// The parameters that were found so far.
pub struct FoundView {
    pub pool_description: Option<Seq<char>>,
    pub control_description: Option<Seq<char>>,
    pub ack_description: Option<Seq<char>>,
    pub pool_slot_count: Option<u32>,
    pub pool_slot_size_bytes: Option<u32>,
    pub control_slot_count: Option<u32>,
    pub control_slot_size_bytes: Option<u32>,
    pub ack_slot_count: Option<u32>,
    pub ack_slot_size_bytes: Option<u32>,
    pub worker_id: Option<u32>,
    pub force_recreate: bool,
}

impl View for Found {
    type V = FoundView;

    closed spec fn view(&self) -> FoundView {
        FoundView {
            pool_description: worker::opt_text(self.pool_description),
            control_description: worker::opt_text(self.control_description),
            ack_description: worker::opt_text(self.ack_description),
            pool_slot_count: self.pool_slot_count,
            pool_slot_size_bytes: self.pool_slot_size_bytes,
            control_slot_count: self.control_slot_count,
            control_slot_size_bytes: self.control_slot_size_bytes,
            ack_slot_count: self.ack_slot_count,
            ack_slot_size_bytes: self.ack_slot_size_bytes,
            worker_id: self.worker_id,
            force_recreate: self.force_recreate,
        }
    }
}

impl FoundView {
    /// Nothing was found yet.
    pub open spec fn none() -> FoundView {
        FoundView {
            pool_description: None,
            control_description: None,
            ack_description: None,
            pool_slot_count: None,
            pool_slot_size_bytes: None,
            control_slot_count: None,
            control_slot_size_bytes: None,
            ack_slot_count: None,
            ack_slot_size_bytes: None,
            worker_id: None,
            force_recreate: false,
        }
    }

    /// What is found with one more argument. A key that comes twice counts
    /// the second time.
    #[verifier::opaque]
    pub open spec fn with(self, key: Seq<char>, val: Seq<char>) -> core::result::Result<
        FoundView,
        Seq<char>,
    > {
        if key == ARG_POOL_DESC@ {
            Ok(FoundView { pool_description: Some(val), ..self })
        } else if key == ARG_CONTROL_DESC@ {
            Ok(FoundView { control_description: Some(val), ..self })
        } else if key == ARG_ACK_DESC@ {
            Ok(FoundView { ack_description: Some(val), ..self })
        } else if key == ARG_POOL_SLOT_COUNT@ {
            match number(key, val) {
                Ok(n) => Ok(FoundView { pool_slot_count: Some(n), ..self }),
                Err(words) => Err(words),
            }
        } else if key == ARG_POOL_SLOT_SIZE@ {
            match number(key, val) {
                Ok(n) => Ok(FoundView { pool_slot_size_bytes: Some(n), ..self }),
                Err(words) => Err(words),
            }
        } else if key == ARG_CONTROL_SLOT_COUNT@ {
            match number(key, val) {
                Ok(n) => Ok(FoundView { control_slot_count: Some(n), ..self }),
                Err(words) => Err(words),
            }
        } else if key == ARG_CONTROL_SLOT_SIZE@ {
            match number(key, val) {
                Ok(n) => Ok(FoundView { control_slot_size_bytes: Some(n), ..self }),
                Err(words) => Err(words),
            }
        } else if key == ARG_ACK_SLOT_COUNT@ {
            match number(key, val) {
                Ok(n) => Ok(FoundView { ack_slot_count: Some(n), ..self }),
                Err(words) => Err(words),
            }
        } else if key == ARG_ACK_SLOT_SIZE@ {
            match number(key, val) {
                Ok(n) => Ok(FoundView { ack_slot_size_bytes: Some(n), ..self }),
                Err(words) => Err(words),
            }
        } else if key == ARG_WORKER_ID@ {
            match number(key, val) {
                Ok(n) => Ok(FoundView { worker_id: Some(n), ..self }),
                Err(words) => Err(words),
            }
        } else if key == ARG_FORCE_RECREATE@ {
            match flag(key, val) {
                Ok(b) => Ok(FoundView { force_recreate: b, ..self }),
                Err(words) => Err(words),
            }
        } else {
            Err("unknown worker arg "@ + key)
        }
    }

    /// What is found with all the arguments, taken in pairs.
    pub open spec fn with_all(self, args: Seq<Seq<char>>) -> core::result::Result<
        FoundView,
        Seq<char>,
    >
        decreases args.len(),
    {
        if args.len() == 0 {
            Ok(self)
        } else if args.len() == 1 {
            Err("missing value for worker arg "@ + args[0])
        } else {
            match self.with(args[0], args[1]) {
                Ok(f) => f.with_all(args.skip(2)),
                Err(words) => Err(words),
            }
        }
    }

    /// The parameters, if all that are required were found.
    pub open spec fn complete(self) -> core::result::Result<WorkerParamsView, Seq<char>> {
        if self.pool_description is None {
            Err(missing_words(ARG_POOL_DESC@))
        } else if self.control_description is None {
            Err(missing_words(ARG_CONTROL_DESC@))
        } else if self.ack_description is None {
            Err(missing_words(ARG_ACK_DESC@))
        } else if self.pool_slot_count is None {
            Err(missing_words(ARG_POOL_SLOT_COUNT@))
        } else if self.pool_slot_size_bytes is None {
            Err(missing_words(ARG_POOL_SLOT_SIZE@))
        } else if self.control_slot_count is None {
            Err(missing_words(ARG_CONTROL_SLOT_COUNT@))
        } else if self.control_slot_size_bytes is None {
            Err(missing_words(ARG_CONTROL_SLOT_SIZE@))
        } else if self.ack_slot_count is None {
            Err(missing_words(ARG_ACK_SLOT_COUNT@))
        } else if self.ack_slot_size_bytes is None {
            Err(missing_words(ARG_ACK_SLOT_SIZE@))
        } else if self.worker_id is None {
            Err(missing_words(ARG_WORKER_ID@))
        } else {
            Ok(
                WorkerParamsView {
                    pool_description: self.pool_description->0,
                    control_description: self.control_description->0,
                    ack_description: self.ack_description->0,
                    pool_slot_count: self.pool_slot_count->0,
                    pool_slot_size_bytes: self.pool_slot_size_bytes->0,
                    control_slot_count: self.control_slot_count->0,
                    control_slot_size_bytes: self.control_slot_size_bytes->0,
                    ack_slot_count: self.ack_slot_count->0,
                    ack_slot_size_bytes: self.ack_slot_size_bytes->0,
                    worker_id: self.worker_id->0,
                    force_recreate: self.force_recreate,
                },
            )
        }
    }
}

/// Words for an argument that is required and did not come.
pub open spec fn missing_words(name: Seq<char>) -> Seq<char> {
    "missing required worker arg "@ + name
}

/// What arguments say, or why they are refused.
pub open spec fn args_parsed(args: Seq<Seq<char>>) -> core::result::Result<
    WorkerParamsView,
    Seq<char>,
> {
    match FoundView::none().with_all(args) {
        Ok(f) => f.complete(),
        Err(words) => Err(words),
    }
}

fn require<T>(opt: Option<T>, name: &str) -> (r: Result<T>)
    ensures
        match opt {
            Some(v) => r == Ok::<T, TesseraSinkError>(v),
            None => r matches Err(e) && error::is_config(e, missing_words(name@)),
        },
{
    match opt {
        Some(v) => Ok(v),
        None => {
            let mut words = String::from_str("missing required worker arg ");
            words.append(name);
            Err(TesseraSinkError::Config(words))
        },
    }
}

impl Found {
    /// Takes in one argument with its value.
    fn take(&mut self, key: &str, val: &str) -> (r: Result<()>)
        ensures
            match old(self)@.with(key@, val@) {
                Ok(f) => r is Ok && final(self)@ == f,
                Err(words) => r matches Err(e) && error::is_config(e, words),
            },
    {
        proof {
            reveal(FoundView::with);
        }
        if text::same(key, ARG_POOL_DESC) {
            self.pool_description = Some(String::from_str(val));
            return Ok(());
        }
        if text::same(key, ARG_CONTROL_DESC) {
            self.control_description = Some(String::from_str(val));
            return Ok(());
        }
        if text::same(key, ARG_ACK_DESC) {
            self.ack_description = Some(String::from_str(val));
            return Ok(());
        }
        let numeric: bool = text::same(key, ARG_POOL_SLOT_COUNT) || text::same(
            key,
            ARG_POOL_SLOT_SIZE,
        ) || text::same(key, ARG_CONTROL_SLOT_COUNT) || text::same(key, ARG_CONTROL_SLOT_SIZE)
            || text::same(key, ARG_ACK_SLOT_COUNT) || text::same(key, ARG_ACK_SLOT_SIZE)
            || text::same(key, ARG_WORKER_ID);
        if !numeric && text::same(key, ARG_FORCE_RECREATE) {
            return match parse_flag(key, val) {
                Ok(b) => {
                    self.force_recreate = b;
                    Ok(())
                },
                Err(e) => Err(e),
            };
        }
        if !numeric {
            let mut words = String::from_str("unknown worker arg ");
            words.append(key);
            return Err(TesseraSinkError::Config(words));
        }
        let n: u32 = match parse_u32(key, val) {
            Ok(n) => n,
            Err(e) => return Err(e),
        };
        if text::same(key, ARG_POOL_SLOT_COUNT) {
            self.pool_slot_count = Some(n);
        } else if text::same(key, ARG_POOL_SLOT_SIZE) {
            self.pool_slot_size_bytes = Some(n);
        } else if text::same(key, ARG_CONTROL_SLOT_COUNT) {
            self.control_slot_count = Some(n);
        } else if text::same(key, ARG_CONTROL_SLOT_SIZE) {
            self.control_slot_size_bytes = Some(n);
        } else if text::same(key, ARG_ACK_SLOT_COUNT) {
            self.ack_slot_count = Some(n);
        } else if text::same(key, ARG_ACK_SLOT_SIZE) {
            self.ack_slot_size_bytes = Some(n);
        } else {
            self.worker_id = Some(n);
        }
        Ok(())
    }

    /// The parameters, if all that are required were found.
    fn finish(self) -> (r: Result<WorkerParams>)
        ensures
            match self@.complete() {
                Ok(p) => r matches Ok(x) && x@ == p,
                Err(words) => r matches Err(e) && error::is_config(e, words),
            },
    {
        let pool_description = match require(self.pool_description, ARG_POOL_DESC) {
            Ok(v) => v,
            Err(e) => return Err(e),
        };
        let control_description = match require(self.control_description, ARG_CONTROL_DESC) {
            Ok(v) => v,
            Err(e) => return Err(e),
        };
        let ack_description = match require(self.ack_description, ARG_ACK_DESC) {
            Ok(v) => v,
            Err(e) => return Err(e),
        };
        let pool_slot_count: u32 = match require(self.pool_slot_count, ARG_POOL_SLOT_COUNT) {
            Ok(v) => v,
            Err(e) => return Err(e),
        };
        let pool_slot_size_bytes: u32 = match require(
            self.pool_slot_size_bytes,
            ARG_POOL_SLOT_SIZE,
        ) {
            Ok(v) => v,
            Err(e) => return Err(e),
        };
        let control_slot_count: u32 = match require(
            self.control_slot_count,
            ARG_CONTROL_SLOT_COUNT,
        ) {
            Ok(v) => v,
            Err(e) => return Err(e),
        };
        let control_slot_size_bytes: u32 = match require(
            self.control_slot_size_bytes,
            ARG_CONTROL_SLOT_SIZE,
        ) {
            Ok(v) => v,
            Err(e) => return Err(e),
        };
        let ack_slot_count: u32 = match require(self.ack_slot_count, ARG_ACK_SLOT_COUNT) {
            Ok(v) => v,
            Err(e) => return Err(e),
        };
        let ack_slot_size_bytes: u32 = match require(self.ack_slot_size_bytes, ARG_ACK_SLOT_SIZE) {
            Ok(v) => v,
            Err(e) => return Err(e),
        };
        let worker_id: u32 = match require(self.worker_id, ARG_WORKER_ID) {
            Ok(v) => v,
            Err(e) => return Err(e),
        };
        Ok(
            WorkerParams {
                pool_description,
                control_description,
                ack_description,
                pool_slot_count,
                pool_slot_size_bytes,
                control_slot_count,
                control_slot_size_bytes,
                ack_slot_count,
                ack_slot_size_bytes,
                worker_id,
                force_recreate: self.force_recreate,
            },
        )
    }
}

/// The parameters that the arguments of a worker carry.
pub fn parse_worker_args(args: &[String]) -> (r: Result<WorkerParams>)
    ensures
        match args_parsed(texts(args@)) {
            Ok(p) => r matches Ok(x) && x@ == p,
            Err(words) => r matches Err(e) && error::is_config(e, words),
        },
{
    let mut found = Found {
        pool_description: None,
        control_description: None,
        ack_description: None,
        pool_slot_count: None,
        pool_slot_size_bytes: None,
        control_slot_count: None,
        control_slot_size_bytes: None,
        ack_slot_count: None,
        ack_slot_size_bytes: None,
        worker_id: None,
        force_recreate: false,
    };
    let ghost all = texts(args@);
    let mut i: usize = 0;
    let n: usize = args.len();
    assert(all.skip(0) =~= all);
    while i < n
        invariant
            n == args@.len(),
            i <= n,
            all == texts(args@),
            FoundView::none().with_all(all) == found@.with_all(all.skip(i as int)),
        decreases n - i,
    {
        if n - i == 1 {
            assert(all.skip(i as int)[0] == all[i as int]);
            let mut words = String::from_str("missing value for worker arg ");
            words.append(args[i].as_str());
            return Err(TesseraSinkError::Config(words));
        }
        proof {
            assert(all.skip(i as int)[0] == all[i as int]);
            assert(all.skip(i as int)[1] == all[i + 1]);
            assert(all.skip(i as int).skip(2) =~= all.skip(i + 2));
        }
        match found.take(args[i].as_str(), args[i + 1].as_str()) {
            Ok(_) => {},
            Err(e) => return Err(e),
        }
        i = i + 2;
    }
    found.finish()
}

/// Where the worker executable is.
#[derive(Clone, Copy, Debug, PartialEq, Eq)]
pub enum WorkerBin {
    /// Where the configuration says.
    Explicit,
    /// Where the environment variable says.
    Environment,
    /// Beside the running executable.
    Sibling,
    /// Wherever the search path finds it.
    OnPath,
}

/// Chooses the worker executable. A path in the configuration is taken or
/// nothing is; without one the environment variable comes first, then the
/// running executable's directory, then the search path. A place that there
/// is none of is `None`; of the others it is said whether a file is there.
pub fn resolve_worker_bin(
    config: &SinkConfig,
    explicit_exists: bool,
    env_exists: Option<bool>,
    sibling_exists: Option<bool>,
) -> (r: Result<WorkerBin>)
    ensures
        match config.worker_bin_path {
            Some(p) => if explicit_exists {
                r == Ok::<WorkerBin, TesseraSinkError>(WorkerBin::Explicit)
            } else {
                r matches Err(TesseraSinkError::WorkerBinaryNotFound { tried }) && texts(tried@)
                    == seq![p@]
            },
            None => r == Ok::<WorkerBin, TesseraSinkError>(
                if env_exists == Some(true) {
                    WorkerBin::Environment
                } else if sibling_exists == Some(true) {
                    WorkerBin::Sibling
                } else {
                    WorkerBin::OnPath
                },
            ),
        },
{
    match &config.worker_bin_path {
        Some(p) => {
            if explicit_exists {
                return Ok(WorkerBin::Explicit);
            }
            let mut tried: Vec<String> = Vec::new();
            tried.push(String::from_str(p.as_str()));
            assert(texts(tried@) =~= seq![p@]);
            Err(TesseraSinkError::WorkerBinaryNotFound { tried })
        },
        None => {
            if let Some(true) = env_exists {
                return Ok(WorkerBin::Environment);
            }
            if let Some(true) = sibling_exists {
                return Ok(WorkerBin::Sibling);
            }
            Ok(WorkerBin::OnPath)
        },
    }
}

/// The keys all differ: each has a length of its own, or another third
/// character.
proof fn lemma_keys_differ()
    ensures
        ARG_POOL_DESC@.len() == 18,
        ARG_CONTROL_DESC@.len() == 21,
        ARG_ACK_DESC@.len() == 17,
        ARG_POOL_SLOT_COUNT@.len() == 17,
        ARG_POOL_SLOT_SIZE@.len() == 22,
        ARG_CONTROL_SLOT_COUNT@.len() == 20,
        ARG_CONTROL_SLOT_SIZE@.len() == 25,
        ARG_ACK_SLOT_COUNT@.len() == 16,
        ARG_ACK_SLOT_SIZE@.len() == 21,
        ARG_WORKER_ID@.len() == 11,
        ARG_FORCE_RECREATE@.len() == 16,
        ARG_CONTROL_DESC@[2] == 'c',
        ARG_ACK_SLOT_SIZE@[2] == 'a',
        ARG_ACK_DESC@[2] == 'a',
        ARG_POOL_SLOT_COUNT@[2] == 'p',
        ARG_ACK_SLOT_COUNT@[2] == 'a',
        ARG_FORCE_RECREATE@[2] == 'f',
{
    reveal_strlit("--pool-description");
    reveal_strlit("--control-description");
    reveal_strlit("--ack-description");
    reveal_strlit("--pool-slot-count");
    reveal_strlit("--pool-slot-size-bytes");
    reveal_strlit("--control-slot-count");
    reveal_strlit("--control-slot-size-bytes");
    reveal_strlit("--ack-slot-count");
    reveal_strlit("--ack-slot-size-bytes");
    reveal_strlit("--worker-id");
    reveal_strlit("--force-recreate");
}

/// A number in decimal is read as the number.
proof fn lemma_number(key: Seq<char>, n: u32)
    ensures
        number(key, text::dec(n as nat)) == Ok::<u32, Seq<char>>(n),
{
    text::lemma_dec_round_trip(n as nat);
    assert(text::is_digit(text::dec(n as nat)[0]));
    assert(digits_of(text::dec(n as nat)) == text::dec(n as nat));
}

/// What each key does.
proof fn lemma_with(f: FoundView, val: Seq<char>, n: u32)
    ensures
        f.with(ARG_POOL_DESC@, val) == Ok::<FoundView, Seq<char>>(
            FoundView { pool_description: Some(val), ..f },
        ),
        f.with(ARG_CONTROL_DESC@, val) == Ok::<FoundView, Seq<char>>(
            FoundView { control_description: Some(val), ..f },
        ),
        f.with(ARG_ACK_DESC@, val) == Ok::<FoundView, Seq<char>>(
            FoundView { ack_description: Some(val), ..f },
        ),
        f.with(ARG_POOL_SLOT_COUNT@, text::dec(n as nat)) == Ok::<FoundView, Seq<char>>(
            FoundView { pool_slot_count: Some(n), ..f },
        ),
        f.with(ARG_POOL_SLOT_SIZE@, text::dec(n as nat)) == Ok::<FoundView, Seq<char>>(
            FoundView { pool_slot_size_bytes: Some(n), ..f },
        ),
        f.with(ARG_CONTROL_SLOT_COUNT@, text::dec(n as nat)) == Ok::<FoundView, Seq<char>>(
            FoundView { control_slot_count: Some(n), ..f },
        ),
        f.with(ARG_CONTROL_SLOT_SIZE@, text::dec(n as nat)) == Ok::<FoundView, Seq<char>>(
            FoundView { control_slot_size_bytes: Some(n), ..f },
        ),
        f.with(ARG_ACK_SLOT_COUNT@, text::dec(n as nat)) == Ok::<FoundView, Seq<char>>(
            FoundView { ack_slot_count: Some(n), ..f },
        ),
        f.with(ARG_ACK_SLOT_SIZE@, text::dec(n as nat)) == Ok::<FoundView, Seq<char>>(
            FoundView { ack_slot_size_bytes: Some(n), ..f },
        ),
        f.with(ARG_WORKER_ID@, text::dec(n as nat)) == Ok::<FoundView, Seq<char>>(
            FoundView { worker_id: Some(n), ..f },
        ),
        f.with(ARG_FORCE_RECREATE@, "true"@) == Ok::<FoundView, Seq<char>>(
            FoundView { force_recreate: true, ..f },
        ),
{
    reveal(FoundView::with);
    lemma_keys_differ();
    lemma_number(ARG_POOL_SLOT_COUNT@, n);
    lemma_number(ARG_POOL_SLOT_SIZE@, n);
    lemma_number(ARG_CONTROL_SLOT_COUNT@, n);
    lemma_number(ARG_CONTROL_SLOT_SIZE@, n);
    lemma_number(ARG_ACK_SLOT_COUNT@, n);
    lemma_number(ARG_ACK_SLOT_SIZE@, n);
    lemma_number(ARG_WORKER_ID@, n);
}

/// One more pair of arguments.
proof fn lemma_one_more(f: FoundView, g: FoundView, args: Seq<Seq<char>>, i: int)
    requires
        0 <= i,
        i + 2 <= args.len(),
        f.with(args[i], args[i + 1]) == Ok::<FoundView, Seq<char>>(g),
    ensures
        f.with_all(args.skip(i)) == g.with_all(args.skip(i + 2)),
{
    let rest = args.skip(i);
    assert(rest[0] == args[i] && rest[1] == args[i + 1]);
    assert(rest.skip(2) =~= args.skip(i + 2));
}

/// The parameters that a worker is started with are those that it reads
/// from its arguments.
pub proof fn law_args_round_trip(p: WorkerParamsView)
    ensures
        args_parsed(args_of(p)) == Ok::<WorkerParamsView, Seq<char>>(p),
{
    let a = args_of(p);
    let f0 = FoundView::none();
    let f1 = FoundView { pool_description: Some(p.pool_description), ..f0 };
    assert(f0.with_all(a.skip(0)) == f1.with_all(a.skip(2))) by {
        lemma_with(f0, p.pool_description, 0);
        lemma_one_more(f0, f1, a, 0);
    }
    let f2 = FoundView { control_description: Some(p.control_description), ..f1 };
    assert(f1.with_all(a.skip(2)) == f2.with_all(a.skip(4))) by {
        lemma_with(f1, p.control_description, 0);
        lemma_one_more(f1, f2, a, 2);
    }
    let f3 = FoundView { ack_description: Some(p.ack_description), ..f2 };
    assert(f2.with_all(a.skip(4)) == f3.with_all(a.skip(6))) by {
        lemma_with(f2, p.ack_description, 0);
        lemma_one_more(f2, f3, a, 4);
    }
    let f4 = FoundView { pool_slot_count: Some(p.pool_slot_count), ..f3 };
    assert(f3.with_all(a.skip(6)) == f4.with_all(a.skip(8))) by {
        lemma_with(f3, Seq::empty(), p.pool_slot_count);
        lemma_one_more(f3, f4, a, 6);
    }
    let f5 = FoundView { pool_slot_size_bytes: Some(p.pool_slot_size_bytes), ..f4 };
    assert(f4.with_all(a.skip(8)) == f5.with_all(a.skip(10))) by {
        lemma_with(f4, Seq::empty(), p.pool_slot_size_bytes);
        lemma_one_more(f4, f5, a, 8);
    }
    let f6 = FoundView { control_slot_count: Some(p.control_slot_count), ..f5 };
    assert(f5.with_all(a.skip(10)) == f6.with_all(a.skip(12))) by {
        lemma_with(f5, Seq::empty(), p.control_slot_count);
        lemma_one_more(f5, f6, a, 10);
    }
    let f7 = FoundView { control_slot_size_bytes: Some(p.control_slot_size_bytes), ..f6 };
    assert(f6.with_all(a.skip(12)) == f7.with_all(a.skip(14))) by {
        lemma_with(f6, Seq::empty(), p.control_slot_size_bytes);
        lemma_one_more(f6, f7, a, 12);
    }
    let f8 = FoundView { ack_slot_count: Some(p.ack_slot_count), ..f7 };
    assert(f7.with_all(a.skip(14)) == f8.with_all(a.skip(16))) by {
        lemma_with(f7, Seq::empty(), p.ack_slot_count);
        lemma_one_more(f7, f8, a, 14);
    }
    let f9 = FoundView { ack_slot_size_bytes: Some(p.ack_slot_size_bytes), ..f8 };
    assert(f8.with_all(a.skip(16)) == f9.with_all(a.skip(18))) by {
        lemma_with(f8, Seq::empty(), p.ack_slot_size_bytes);
        lemma_one_more(f8, f9, a, 16);
    }
    let f10 = FoundView { worker_id: Some(p.worker_id), ..f9 };
    assert(f9.with_all(a.skip(18)) == f10.with_all(a.skip(20))) by {
        lemma_with(f9, Seq::empty(), p.worker_id);
        lemma_one_more(f9, f10, a, 18);
    }
    assert(a.skip(0) =~= a);
    if p.force_recreate {
        let f11 = FoundView { force_recreate: true, ..f10 };
        assert(f10.with_all(a.skip(20)) == f11.with_all(a.skip(22))) by {
            lemma_with(f10, Seq::empty(), 0);
            lemma_one_more(f10, f11, a, 20);
        }
        assert(a.skip(22).len() == 0);
        assert(f11.with_all(a.skip(22)) == Ok::<FoundView, Seq<char>>(f11));
    } else {
        assert(a.skip(20).len() == 0);
        assert(f10.with_all(a.skip(20)) == Ok::<FoundView, Seq<char>>(f10));
    }
}

/// An argument that comes twice counts the second time.
pub proof fn law_the_last_value_counts(
    f: FoundView,
    key: Seq<char>,
    first: Seq<char>,
    second: Seq<char>,
)
    ensures
        f.with(key, first) matches Ok(g) ==> g.with(key, second) == f.with(key, second),
{
    reveal(FoundView::with);
}

/// An argument changes what it is for and nothing else.
pub proof fn law_what_an_argument_says(f: FoundView, val: Seq<char>, n: u32)
    ensures
        f.with(ARG_POOL_DESC@, val) == Ok::<FoundView, Seq<char>>(
            FoundView { pool_description: Some(val), ..f },
        ),
        f.with(ARG_CONTROL_DESC@, val) == Ok::<FoundView, Seq<char>>(
            FoundView { control_description: Some(val), ..f },
        ),
        f.with(ARG_ACK_DESC@, val) == Ok::<FoundView, Seq<char>>(
            FoundView { ack_description: Some(val), ..f },
        ),
        f.with(ARG_WORKER_ID@, text::dec(n as nat)) == Ok::<FoundView, Seq<char>>(
            FoundView { worker_id: Some(n), ..f },
        ),
        f.with(ARG_FORCE_RECREATE@, "true"@) == Ok::<FoundView, Seq<char>>(
            FoundView { force_recreate: true, ..f },
        ),
        f.with(ARG_FORCE_RECREATE@, "false"@) == Ok::<FoundView, Seq<char>>(
            FoundView { force_recreate: false, ..f },
        ),
        val != "true"@ && val != "false"@ ==> f.with(ARG_FORCE_RECREATE@, val) is Err,
{
    lemma_with(f, val, n);
    reveal(FoundView::with);
    lemma_keys_differ();
    reveal_strlit("true");
    reveal_strlit("false");
}

/// A number is one or more decimal digits, with or without a plus sign, of a
/// value that 32 bits hold; anything else is refused, and so is a key that
/// is none of a worker's.
pub proof fn law_which_arguments_are_read(f: FoundView, key: Seq<char>, val: Seq<char>)
    ensures
        ({
            let d = if val.len() > 0 && val[0] == '+' {
                val.skip(1)
            } else {
                val
            };
            let spelt = d.len() > 0 && text::all_digits(d) && text::digits_value(d) <= u32::MAX;
            &&& number(key, val) is Ok <==> spelt
            &&& number(key, val) matches Ok(n) ==> n == text::digits_value(d)
        }),
        f.with(key, val) is Ok ==> key == ARG_POOL_DESC@ || key == ARG_CONTROL_DESC@ || key
            == ARG_ACK_DESC@ || key == ARG_POOL_SLOT_COUNT@ || key == ARG_POOL_SLOT_SIZE@ || key
            == ARG_CONTROL_SLOT_COUNT@ || key == ARG_CONTROL_SLOT_SIZE@ || key
            == ARG_ACK_SLOT_COUNT@ || key == ARG_ACK_SLOT_SIZE@ || key == ARG_WORKER_ID@ || key
            == ARG_FORCE_RECREATE@,
{
    reveal(FoundView::with);
}

/// Every parameter but the one to create anew must be there; what is there
/// is what the worker is started with.
pub proof fn law_which_parameters_are_required(f: FoundView)
    ensures
        f.complete() is Ok <==> f.pool_description is Some && f.control_description is Some
            && f.ack_description is Some && f.pool_slot_count is Some
            && f.pool_slot_size_bytes is Some && f.control_slot_count is Some
            && f.control_slot_size_bytes is Some && f.ack_slot_count is Some
            && f.ack_slot_size_bytes is Some && f.worker_id is Some,
        f.complete() matches Ok(p) ==> {
            &&& f.pool_description == Some(p.pool_description)
            &&& f.control_description == Some(p.control_description)
            &&& f.ack_description == Some(p.ack_description)
            &&& f.pool_slot_count == Some(p.pool_slot_count)
            &&& f.pool_slot_size_bytes == Some(p.pool_slot_size_bytes)
            &&& f.control_slot_count == Some(p.control_slot_count)
            &&& f.control_slot_size_bytes == Some(p.control_slot_size_bytes)
            &&& f.ack_slot_count == Some(p.ack_slot_count)
            &&& f.ack_slot_size_bytes == Some(p.ack_slot_size_bytes)
            &&& f.worker_id == Some(p.worker_id)
            &&& f.force_recreate == p.force_recreate
        },
        !FoundView::none().force_recreate,
        FoundView::none().complete() is Err,
{
}

/// Arguments that are not in pairs are refused.
pub proof fn law_arguments_come_in_pairs(f: FoundView, args: Seq<Seq<char>>)
    requires
        args.len() % 2 == 1,
    ensures
        f.with_all(args) is Err,
        args_parsed(args) is Err,
    decreases args.len(),
{
    if args.len() > 1 {
        if let Ok(g) = f.with(args[0], args[1]) {
            law_arguments_come_in_pairs(g, args.skip(2));
        }
        if let Ok(g) = FoundView::none().with(args[0], args[1]) {
            law_arguments_come_in_pairs(g, args.skip(2));
        }
    }
}

} // verus!
