//! The run configuration and what is built from it: the start-request's
//! argument list, the progress message shown before a run, and the
//! validators for argument entries typed by the user.

use vstd::prelude::*;
use crate::text::{contains_char, spec_contains_char};

verus! {

/// What one orchestration needs to know: the target job, the name of the
/// date argument when runs are date-parameterized, and the extra
/// arguments as a flat list of entries read two at a time as name/value
/// pairs (a trailing unpaired entry is dropped).
#[derive(Clone, Debug)]
pub struct RunConfiguration {
    pub name: String,
    pub date_arg_name: Option<String>,
    pub additional_args: Vec<String>,
}

/// A start-request as handed to the remote job-control call: the job and
/// its named arguments, in order.
#[derive(Clone, Debug)]
pub struct StartRequest {
    pub job_name: String,
    pub arguments: Vec<(String, String)>,
}

/// The name/value pairs read from a flat argument list, two entries at a
/// time; a trailing unpaired entry is dropped.
pub open spec fn arg_pairs(args: Seq<String>) -> Seq<(String, String)>
    decreases args.len(),
{
    if args.len() < 2 {
        Seq::empty()
    } else {
        seq![(args[0], args[1])] + arg_pairs(args.skip(2))
    }
}

/// The argument list of a start-request: the date pair first if a run
/// date is supplied, then every configured pair in its original order.
pub open spec fn spec_start_arguments(
    c: RunConfiguration,
    run_date: Option<&String>,
) -> Seq<(String, String)> {
    (match run_date {
        Some(d) => seq![(c.date_arg_name->0, *d)],
        None => Seq::empty(),
    }) + arg_pairs(c.additional_args@)
}

/// Builds the start-request for one run: the job name, the date argument
/// if a date is supplied, and every configured name/value pair, none
/// dropped, reordered or deduplicated.
pub fn build_start_request(config: &RunConfiguration, run_date: Option<&String>) -> (r: StartRequest)
    requires
        run_date is Some ==> config.date_arg_name is Some,
    ensures
        r.job_name == config.name,
        r.arguments@ == spec_start_arguments(*config, run_date),
{
    let mut arguments: Vec<(String, String)> = Vec::new();
    if let Some(d) = run_date {
        let n = config.date_arg_name.as_ref().unwrap().clone();
        arguments.push((n, d.clone()));
    }
    let ghost date_part = match run_date {
        Some(d) => seq![(config.date_arg_name->0, *d)],
        None => Seq::<(String, String)>::empty(),
    };
    proof {
        assert(arguments@ =~= date_part);
        assert(config.additional_args@.skip(0) =~= config.additional_args@);
    }
    let args = &config.additional_args;
    let mut i: usize = 0;
    while args.len() - i >= 2
        invariant
            i <= args@.len(),
            arguments@ + arg_pairs(args@.skip(i as int)) == date_part + arg_pairs(args@),
        decreases args@.len() - i,
    {
        proof {
            assert(args@.skip(i as int).len() >= 2);
            assert(args@.skip(i as int)[0] == args@[i as int]);
            assert(args@.skip(i as int)[1] == args@[i as int + 1]);
            assert(args@.skip(i as int).skip(2) =~= args@.skip(i as int + 2));
            assert(arguments@.push((args@[i as int], args@[i as int + 1])) + arg_pairs(
                args@.skip(i as int + 2),
            ) =~= arguments@ + arg_pairs(args@.skip(i as int)));
        }
        arguments.push((args[i].clone(), args[i + 1].clone()));
        i = i + 2;
    }
    proof {
        assert(arg_pairs(args@.skip(i as int)) =~= Seq::<(String, String)>::empty());
        assert(arguments@ =~= arguments@ + arg_pairs(args@.skip(i as int)));
        assert(date_part + arg_pairs(args@) == spec_start_arguments(*config, run_date));
    }
    StartRequest { job_name: config.name.clone(), arguments }
}

/// One rendered argument line of the progress message.
pub open spec fn spec_arg_line(name: Seq<char>, value: Seq<char>) -> Seq<char> {
    " "@ + name + ": "@ + value + "\n"@
}

/// The rendered argument lines, one per pair, in order.
pub open spec fn spec_arg_lines(pairs: Seq<(String, String)>) -> Seq<char>
    decreases pairs.len(),
{
    if pairs.len() == 0 {
        Seq::empty()
    } else {
        spec_arg_line(pairs[0].0@, pairs[0].1@) + spec_arg_lines(pairs.skip(1))
    }
}

/// The progress message shown before one run: the job name, then each
/// argument of the start-request on a line of its own.
pub open spec fn spec_message(c: RunConfiguration, run_date: Option<&String>) -> Seq<char> {
    "Running "@ + c.name@ + " with arguments:\n"@ + spec_arg_lines(
        spec_start_arguments(c, run_date),
    )
}

impl RunConfiguration {
    /// Renders the progress message for one run.
    pub fn message(&self, run_date: Option<&String>) -> (m: String)
        requires
            run_date is Some ==> self.date_arg_name is Some,
        ensures
            m@ == spec_message(*self, run_date),
    {
        let mut m = String::new();
        m.append("Running ");
        m.append(self.name.as_str());
        m.append(" with arguments:\n");
        let ghost header = m@;
        let ghost date_part = match run_date {
            Some(d) => seq![(self.date_arg_name->0, *d)],
            None => Seq::<(String, String)>::empty(),
        };
        if let Some(d) = run_date {
            let n = self.date_arg_name.as_ref().unwrap();
            m.append(" ");
            m.append(n.as_str());
            m.append(": ");
            m.append(d.as_str());
            m.append("\n");
            proof {
                assert(date_part.skip(1) =~= Seq::<(String, String)>::empty());
                assert(spec_arg_lines(date_part) == spec_arg_line(date_part[0].0@, date_part[0].1@)
                    + spec_arg_lines(date_part.skip(1)));
                assert(m@ =~= header + spec_arg_lines(date_part));
            }
        } else {
            proof {
                assert(m@ =~= header + spec_arg_lines(date_part));
            }
        }
        proof {
            assert(self.additional_args@.skip(0) =~= self.additional_args@);
        }
        let args = &self.additional_args;
        let mut i: usize = 0;
        while args.len() - i >= 2
            invariant
                i <= args@.len(),
                m@ + spec_arg_lines(arg_pairs(args@.skip(i as int))) == header + spec_arg_lines(
                    date_part,
                ) + spec_arg_lines(arg_pairs(args@)),
            decreases args@.len() - i,
        {
            let ghost before = m@;
            m.append(" ");
            m.append(args[i].as_str());
            m.append(": ");
            m.append(args[i + 1].as_str());
            m.append("\n");
            proof {
                let rest = args@.skip(i as int);
                assert(rest[0] == args@[i as int]);
                assert(rest[1] == args@[i as int + 1]);
                assert(rest.skip(2) =~= args@.skip(i as int + 2));
                assert(arg_pairs(rest) == seq![(args@[i as int], args@[i as int + 1])] + arg_pairs(
                    args@.skip(i as int + 2),
                ));
                assert(arg_pairs(rest).skip(1) =~= arg_pairs(args@.skip(i as int + 2)));
                assert(m@ =~= before + spec_arg_line(args@[i as int]@, args@[i as int + 1]@));
                assert(m@ + spec_arg_lines(arg_pairs(args@.skip(i as int + 2))) =~= before
                    + spec_arg_lines(arg_pairs(rest)));
            }
            i = i + 2;
        }
        proof {
            assert(arg_pairs(args@.skip(i as int)) =~= Seq::<(String, String)>::empty());
            assert(m@ =~= m@ + spec_arg_lines(arg_pairs(args@.skip(i as int))));
            // The message is the header followed by the lines of all
            // start-request pairs: the date pair first, then the rest.
            lemma_arg_lines_concat(date_part, arg_pairs(args@));
            assert(header + spec_arg_lines(date_part) + spec_arg_lines(arg_pairs(args@))
                =~= spec_message(*self, run_date));
        }
        m
    }
}

/// Rendering argument lines distributes over concatenation of the pairs.
proof fn lemma_arg_lines_concat(a: Seq<(String, String)>, b: Seq<(String, String)>)
    ensures
        spec_arg_lines(a + b) == spec_arg_lines(a) + spec_arg_lines(b),
    decreases a.len(),
{
    if a.len() == 0 {
        assert(a + b =~= b);
        assert(spec_arg_lines(a) + spec_arg_lines(b) =~= spec_arg_lines(b));
    } else {
        assert((a + b).skip(1) =~= a.skip(1) + b);
        lemma_arg_lines_concat(a.skip(1), b);
        assert((a + b)[0] == a[0]);
        assert(spec_arg_line(a[0].0@, a[0].1@) + (spec_arg_lines(a.skip(1)) + spec_arg_lines(b))
            =~= (spec_arg_line(a[0].0@, a[0].1@) + spec_arg_lines(a.skip(1))) + spec_arg_lines(b));
    }
}

/// Whether an argument name is well-formed: it begins with `--`.
pub open spec fn spec_valid_arg_name(s: Seq<char>) -> bool {
    s.len() >= 2 && s[0] == '-' && s[1] == '-'
}

/// Validates an argument name typed by the user: it must begin with `--`.
pub fn valid_arg_name(input: &str) -> (r: bool)
    ensures
        r == spec_valid_arg_name(input@),
{
    if input.unicode_len() >= 2 {
        input.get_char(0) == '-' && input.get_char(1) == '-'
    } else {
        false
    }
}

/// Validates an argument entry typed by the user: it must hold a space
/// between the name and the value.
pub fn contains_space(input: &str) -> (r: bool)
    ensures
        r == spec_contains_char(input@, ' '),
{
    contains_char(input, ' ')
}

/// Splits an argument entry at its first space into a name and a value;
/// an entry with no space gives nothing.
pub fn split_arg_entry(entry: &str) -> (r: Option<(String, String)>)
    ensures
        r is None ==> !spec_contains_char(entry@, ' '),
        r matches Some((name, value)) ==> {
            let i = name@.len() as int;
            &&& i < entry@.len()
            &&& entry@[i] == ' '
            &&& forall|j: int| 0 <= j < i ==> entry@[j] != ' '
            &&& name@ == entry@.subrange(0, i)
            &&& value@ == entry@.subrange(i + 1, entry@.len() as int)
        },
{
    let n = entry.unicode_len();
    let mut i: usize = 0;
    while i < n
        invariant
            n == entry@.len(),
            i <= n,
            forall|j: int| 0 <= j < i ==> entry@[j] != ' ',
        decreases n - i,
    {
        if entry.get_char(i) == ' ' {
            let name = entry.substring_char(0, i).to_owned();
            let value = entry.substring_char(i + 1, n).to_owned();
            return Some((name, value));
        }
        i = i + 1;
    }
    None
}

} // verus!
