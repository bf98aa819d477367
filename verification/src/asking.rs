//! What a command line asks for.

use vstd::prelude::*;
use crate::args;
use crate::args::{ArgsView, CommandView};
use crate::numbers;
use crate::strings;
use crate::words;

verus! {

/// Whether an argument stands among some, from one on.
pub open spec fn given(args: Seq<Seq<char>>, from: int, arg: Seq<char>) -> bool {
    exists|k: int| from <= k < args.len() && #[trigger] args[k] == arg
}

proof fn given_next(args: Seq<Seq<char>>, from: int, arg: Seq<char>)
    requires
        0 <= from < args.len(),
    ensures
        given(args, from, arg) <==> args[from] == arg || given(args, from + 1, arg),
{
    if given(args, from, arg) {
        let k = choose|k: int| from <= k < args.len() && #[trigger] args[k] == arg;
        if k > from {
            assert(args[k] == arg);
        }
    }
    if given(args, from + 1, arg) {
        let k = choose|k: int| from + 1 <= k < args.len() && #[trigger] args[k] == arg;
        assert(args[k] == arg);
    }
}

proof fn options_are_no_widths(v: Seq<char>)
    requires
        v.len() > 0,
        v[0] == '-',
    ensures
        args::width_of(v) is None,
{
    reveal_strlit("auto");
    assert(strings::lowered(v)[0] == '-');
    assert(strings::lowered("auto"@)[0] == 'a');
    assert(numbers::unsigned(v) == v);
    assert(numbers::digit_value(v[0], 10) is None);
}

proof fn option_strings()
    ensures
        "-h"@ == seq!['-', 'h'],
        "--help"@[0] == '-' && "--help"@.len() == 6,
        "-V"@ == seq!['-', 'V'],
        "--version"@[0] == '-' && "--version"@.len() == 9,
        "-d"@ == seq!['-', 'd'],
        "--dump"@[0] == '-' && "--dump"@.len() == 6 && "--dump"@[2] == 'd',
        "-c"@ == seq!['-', 'c'],
        "--config"@[0] == '-' && "--config"@.len() == 8 && "--config"@[2] == 'c',
        "--clear-cache"@[0] == '-' && "--clear-cache"@.len() == 13,
        "-w"@ == seq!['-', 'w'],
        "--width"@[0] == '-' && "--width"@.len() == 7,
        "--width="@.len() == 8 && "--width="@[0] == '-' && "--width="@[2] == 'w',
        "--help"@[2] == 'h',
        "-"@.len() == 1,
{
    reveal_strlit("-h");
    reveal_strlit("--help");
    reveal_strlit("-V");
    reveal_strlit("--version");
    reveal_strlit("-d");
    reveal_strlit("--dump");
    reveal_strlit("-c");
    reveal_strlit("--config");
    reveal_strlit("--clear-cache");
    reveal_strlit("-w");
    reveal_strlit("--width");
    reveal_strlit("--width=");
    reveal_strlit("-");
    assert("-h"@ =~= seq!['-', 'h']);
    assert("-V"@ =~= seq!['-', 'V']);
    assert("-d"@ =~= seq!['-', 'd']);
    assert("-c"@ =~= seq!['-', 'c']);
    assert("-w"@ =~= seq!['-', 'w']);
}

/// Whether a run does what the arguments from `i` on ask for on top of what was asked
/// for before.
spec fn does(args: Seq<Seq<char>>, i: int, a: ArgsView, b: ArgsView) -> bool {
    &&& b.dump <==> a.dump || given(args, i, "-d"@) || given(args, i, "--dump"@)
    &&& b.config <==> a.config || given(args, i, "-c"@) || given(args, i, "--config"@)
    &&& b.clear_cache <==> a.clear_cache || given(args, i, "--clear-cache"@)
    &&& !given(args, i, "-h"@) && !given(args, i, "--help"@)
    &&& !given(args, i, "-V"@) && !given(args, i, "--version"@)
    &&& a.file is Some ==> b.file == a.file
    &&& a.file is None && b.file is Some ==> given(args, i, b.file->0) && (b.file->0.len() == 0
        || b.file->0[0] != '-' || b.file->0 == "-"@)
}

proof fn runs_do(args: Seq<Seq<char>>, i: int, a: ArgsView)
    requires
        0 <= i <= args.len(),
        args::command_from(args, i, a) is Run,
    ensures
        does(args, i, a, args::command_from(args, i, a)->Run_0),
    decreases args.len() - i,
{
    if i < args.len() {
        let arg = args[i];
        option_strings();
        let b = args::command_from(args, i, a)->Run_0;
        given_next(args, i, "-d"@);
        given_next(args, i, "--dump"@);
        given_next(args, i, "-c"@);
        given_next(args, i, "--config"@);
        given_next(args, i, "--clear-cache"@);
        given_next(args, i, "-h"@);
        given_next(args, i, "--help"@);
        given_next(args, i, "-V"@);
        given_next(args, i, "--version"@);
        if b.file is Some {
            given_next(args, i, b.file->0);
        }
        if arg == "-d"@ || arg == "--dump"@ {
            runs_do(args, i + 1, ArgsView { dump: true, ..a });
        } else if arg == "-c"@ || arg == "--config"@ {
            runs_do(args, i + 1, ArgsView { config: true, ..a });
        } else if arg == "--clear-cache"@ {
            runs_do(args, i + 1, ArgsView { clear_cache: true, ..a });
        } else if arg == "-w"@ || arg == "--width"@ {
            let v = args[i + 1];
            let w = args::width_of(v);
            runs_do(args, i + 2, ArgsView { width: w, ..a });
            given_next(args, i + 1, "-d"@);
            given_next(args, i + 1, "--dump"@);
            given_next(args, i + 1, "-c"@);
            given_next(args, i + 1, "--config"@);
            given_next(args, i + 1, "--clear-cache"@);
            given_next(args, i + 1, "-h"@);
            given_next(args, i + 1, "--help"@);
            given_next(args, i + 1, "-V"@);
            given_next(args, i + 1, "--version"@);
            if b.file is Some {
                given_next(args, i + 1, b.file->0);
            }
            if v.len() > 0 && v[0] == '-' {
                options_are_no_widths(v);
            }
        } else if strings::stands_at(arg, "--width="@, 0) {
            let w = args::width_of(arg.skip("--width="@.len() as int));
            runs_do(args, i + 1, ArgsView { width: w, ..a });
            assert(arg.subrange(0, 8)[2] == arg[2]);
            assert(arg.subrange(0, 8)[0] == arg[0]);
        } else {
            runs_do(args, i + 1, ArgsView { file: Some(arg), ..a });
        }
    }
}

/// A run does what its command line asks for, wherever on it that is asked: it dumps,
/// opens the configuration and clears the cache exactly where the options for that are
/// given, and its file is one of the arguments and no option. Where help or the version
/// is asked for, nothing is run.
pub proof fn runs_do_what_is_asked(args: Seq<Seq<char>>)
    requires
        args::command(args) is Run,
    ensures
        ({
            let a = args::command(args)->Run_0;
            &&& a.dump <==> given(args, 0, "-d"@) || given(args, 0, "--dump"@)
            &&& a.config <==> given(args, 0, "-c"@) || given(args, 0, "--config"@)
            &&& a.clear_cache <==> given(args, 0, "--clear-cache"@)
            &&& !given(args, 0, "-h"@) && !given(args, 0, "--help"@)
            &&& !given(args, 0, "-V"@) && !given(args, 0, "--version"@)
            &&& a.file matches Some(f) ==> given(args, 0, f) && (f.len() == 0 || f[0] != '-' || f
                == "-"@)
        }),
{
    runs_do(
        args,
        0,
        ArgsView { file: None, width: None, dump: false, config: false, clear_cache: false },
    );
}

/// A width is given behind its option or attached to it, and the one that is given last
/// counts: here, at the end of a command line.
pub proof fn widths_are_taken(args: Seq<Seq<char>>, n: u64)
    requires
        args::command(args) is Run,
        n <= usize::MAX,
    ensures
        ({
            let a = args::command(args)->Run_0;
            let v = numbers::decimal_text(n as nat);
            let want = CommandView::Run(ArgsView { width: Some(n as usize), ..a });
            &&& args::command(args + seq!["-w"@, v]) == want
            &&& args::command(args + seq!["--width"@, v]) == want
            &&& args::command(args + seq!["--width="@ + v]) == want
            &&& args::command(args.push("-w"@)) is WidthMissing
        }),
{
    let none = ArgsView { file: None, width: None, dump: false, config: false, clear_cache: false };
    let v = numbers::decimal_text(n as nat);
    more_args(args, seq!["-w"@, v], 0, none);
    more_args(args, seq!["--width"@, v], 0, none);
    more_args(args, seq!["--width="@ + v], 0, none);
    more_args(args, seq!["-w"@], 0, none);
    assert(args.push("-w"@) =~= args + seq!["-w"@]);
    option_strings();
    width_is_read(n);
    let a = args::command(args)->Run_0;
    let k = args.len() as int;
    let s1 = args + seq!["-w"@, v];
    let s2 = args + seq!["--width"@, v];
    let s3 = args + seq!["--width="@ + v];
    assert(s1[k] == "-w"@ && s1[k + 1] == v);
    assert(s2[k] == "--width"@ && s2[k + 1] == v);
    assert(s3[k] == "--width="@ + v);
    let b = ArgsView { width: Some(n as usize), ..a };
    assert(args::command_from(s1, k + 2, b) == CommandView::Run(b));
    assert(args::command_from(s2, k + 2, b) == CommandView::Run(b));
    assert(args::command_from(s3, k + 1, b) == CommandView::Run(b));
    let t = "--width="@ + v;
    assert(t.subrange(0, 8) =~= "--width="@);
    assert(t.skip(8) =~= v);
    assert(t.len() > 8) by {
        digits_are_some(n as nat);
    }
    assert(t[2] == 'w');
    assert(t != "--version"@) by {
        reveal_strlit("--version");
    }
    assert(t != "--clear-cache"@) by {
        reveal_strlit("--clear-cache");
    }
}

proof fn digits_are_some(n: nat)
    ensures
        numbers::decimal_text(n).len() > 0,
{
}

proof fn width_is_read(n: u64)
    requires
        n <= usize::MAX,
    ensures
        args::width_of(numbers::decimal_text(n as nat)) == Some(n as usize),
{
    let v = numbers::decimal_text(n as nat);
    numbers::decimal_reads_back(n as nat, usize::MAX as nat);
    first_digit(n as nat);
    reveal_strlit("auto");
    assert(strings::lowered("auto"@)[0] == 'a');
    assert(strings::lowered(v)[0] == strings::lower(v[0]));
}

proof fn first_digit(n: nat)
    ensures
        numbers::decimal_text(n).len() > 0,
        '0' <= numbers::decimal_text(n)[0] <= '9',
    decreases n,
{
    if n >= 10 {
        first_digit(n / 10);
    }
}

proof fn more_args(args: Seq<Seq<char>>, more: Seq<Seq<char>>, i: int, a: ArgsView)
    requires
        0 <= i <= args.len(),
        args::command_from(args, i, a) is Run,
    ensures
        args::command_from(args + more, i, a) == args::command_from(
            args + more,
            args.len() as int,
            args::command_from(args, i, a)->Run_0,
        ),
    decreases args.len() - i,
{
    if i < args.len() {
        let arg = args[i];
        let s = args + more;
        assert(s[i] == arg);
        if arg == "-d"@ || arg == "--dump"@ {
            more_args(args, more, i + 1, ArgsView { dump: true, ..a });
        } else if arg == "-c"@ || arg == "--config"@ {
            more_args(args, more, i + 1, ArgsView { config: true, ..a });
        } else if arg == "--clear-cache"@ {
            more_args(args, more, i + 1, ArgsView { clear_cache: true, ..a });
        } else if arg == "-w"@ || arg == "--width"@ {
            assert(s[i + 1] == args[i + 1]);
            more_args(args, more, i + 2, ArgsView { width: args::width_of(args[i + 1]), ..a });
        } else if strings::stands_at(arg, "--width="@, 0) {
            let w = args::width_of(arg.skip("--width="@.len() as int));
            more_args(args, more, i + 1, ArgsView { width: w, ..a });
        } else {
            more_args(args, more, i + 1, ArgsView { file: Some(arg), ..a });
        }
    }
}

/// The words of a text, between whitespace, are all of them in order.
pub proof fn words_are_words(s: Seq<char>)
    ensures
        args::words_from(s, 0) == words::words(s),
{
    words_are_words_from(s, 0);
    assert(s.skip(0) =~= s);
}

proof fn run_ends(s: Seq<char>, from: int)
    requires
        0 <= from <= s.len(),
    ensures
        from <= strings::white_at(s, from) <= s.len(),
        forall|i: int|
            from <= i < strings::white_at(s, from) ==> !strings::is_white(#[trigger] s[i]),
        strings::white_at(s, from) < s.len() ==> strings::is_white(
            s[strings::white_at(s, from)],
        ),
    decreases s.len() - from,
{
    if from < s.len() && !strings::is_white(s[from]) {
        run_ends(s, from + 1);
    }
}

proof fn words_are_words_from(s: Seq<char>, from: int)
    requires
        0 <= from <= s.len(),
    ensures
        args::words_from(s, from) == words::words(s.skip(from)),
    decreases s.len() - from,
{
    let none = Seq::<char>::empty();
    let t = s.skip(from);
    if from == s.len() {
        assert(t =~= none);
        assert(words::words(none) =~= seq![]);
        assert(args::words_from(s, from) =~= seq![]);
    } else if strings::is_white(s[from]) {
        words_are_words_from(s, from + 1);
        words::words_stay_apart(none, s[from], s.skip(from + 1));
        assert(none.push(s[from]) + s.skip(from + 1) =~= t);
        assert(words::words(none) + words::words(s.skip(from + 1)) =~= words::words(
            s.skip(from + 1),
        ));
    } else {
        run_ends(s, from);
        let end = strings::white_at(s, from);
        assert(end > from);
        let w = s.subrange(from, end);
        assert forall|i: int| 0 <= i < w.len() implies !strings::is_white(#[trigger] w[i]) by {
            assert(w[i] == s[from + i]);
        }
        words::runs_are_words(w);
        if end < s.len() {
            words_are_words_from(s, end);
            words::words_stay_apart(w, s[end], s.skip(end + 1));
            assert(w.push(s[end]) + s.skip(end + 1) =~= t);
            words::words_stay_apart(none, s[end], s.skip(end + 1));
            assert(none.push(s[end]) + s.skip(end + 1) =~= s.skip(end));
            assert(words::words(none) + words::words(s.skip(end + 1)) =~= words::words(
                s.skip(end + 1),
            ));
        } else {
            assert(w =~= t);
            assert(args::words_from(s, end) =~= seq![]);
            assert(seq![w] + Seq::<Seq<char>>::empty() =~= seq![w]);
        }
    }
}

} // verus!
