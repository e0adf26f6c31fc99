//! The arguments of the importer.

use crate::path::UnixPath;
use crate::text;
use vstd::prelude::*;
use vstd::string::*;
use vstd::utf8::*;

verus! {

/// What the importer was asked to do.
#[derive(Debug)]
pub struct Args {
    pub source_dir: UnixPath,
    /// Where it was told to import to, if it was.
    pub dest_home: Option<UnixPath>,
    pub force: bool,
}

/// What the flags `rest` make of a destination and of whether to overwrite;
/// `None` where one is not known or lacks its value. A flag that comes again
/// counts anew.
pub open spec fn flags(
    rest: Seq<Seq<char>>,
    dest_home: Option<Seq<char>>,
    force: bool,
) -> Option<(Option<Seq<char>>, bool)>
    decreases rest.len(),
{
    if rest.len() == 0 {
        Some((dest_home, force))
    } else if rest[0] == "--dest-home"@ {
        if rest.len() == 1 {
            None
        } else {
            flags(rest.skip(2), Some(rest[1]), force)
        }
    } else if rest[0] == "--force"@ {
        flags(rest.skip(1), dest_home, true)
    } else {
        None
    }
}

/// What the arguments say: the source directory and whatever flags follow.
pub open spec fn said(args: Seq<Seq<char>>) -> Option<(Seq<char>, Option<Seq<char>>, bool)> {
    if args.len() < 2 {
        None
    } else {
        match flags(args.skip(2), None, false) {
            Some((dest_home, force)) => Some((args[1], dest_home, force)),
            None => None,
        }
    }
}

/// Reads the importer's arguments, the first of which is its own name.
pub fn parse_args(args: &[String]) -> (r: Option<Args>)
    ensures
        match (said(text::texts(args@)), r) {
            (Some((source, dest_home, force)), Some(a)) => {
                &&& a.source_dir@ == encode_utf8(source)
                &&& match (dest_home, a.dest_home) {
                    (Some(d), Some(path)) => path@ == encode_utf8(d),
                    (None, None) => true,
                    _ => false,
                }
                &&& a.force == force
            },
            (None, None) => true,
            _ => false,
        },
{
    if args.len() < 2 {
        return None;
    }
    let ghost all = text::texts(args@);
    let source_dir = UnixPath::new(args[1].as_str());
    let mut dest_home: Option<UnixPath> = None;
    let ghost mut dest: Option<Seq<char>> = None;
    let mut force = false;
    let mut i: usize = 2;
    while i < args.len()
        invariant
            2 <= i <= args@.len(),
            all == text::texts(args@),
            flags(all.skip(2), None, false) == flags(all.skip(i as int), dest, force),
            match (dest, dest_home) {
                (Some(d), Some(path)) => path@ == encode_utf8(d),
                (None, None) => true,
                _ => false,
            },
        decreases args@.len() - i,
    {
        assert(all.skip(i as int)[0] == args@[i as int]@);
        if text::same_text(args[i].as_str(), "--dest-home") {
            if i + 1 >= args.len() {
                return None;
            }
            assert(all.skip(i as int)[1] == args@[i + 1]@);
            assert(all.skip(i as int).skip(2) =~= all.skip(i + 2));
            dest_home = Some(UnixPath::new(args[i + 1].as_str()));
            proof {
                dest = Some(args@[i + 1]@);
            }
            i += 2;
        } else if text::same_text(args[i].as_str(), "--force") {
            assert(all.skip(i as int).skip(1) =~= all.skip(i + 1));
            force = true;
            i += 1;
        } else {
            return None;
        }
    }
    Some(Args { source_dir, dest_home, force })
}

/// Where the importer installs: what it was told, else the home directory,
/// else nowhere.
pub fn destination_home(dest_home: Option<UnixPath>, home: Option<UnixPath>) -> (r: Option<
    UnixPath,
>)
    ensures
        r == match dest_home {
            Some(d) => Some(d),
            None => home,
        },
{
    match dest_home {
        Some(d) => Some(d),
        None => home,
    }
}

/// The flags count one after the other, in any number and order: `--force` asks to
/// overwrite, `--dest-home` takes the word behind it, whatever that is, as the
/// destination, and anything else makes the arguments wrong.
pub proof fn law_flags_count_one_after_the_other(
    word: Seq<char>,
    value: Seq<char>,
    rest: Seq<Seq<char>>,
    dest_home: Option<Seq<char>>,
    force: bool,
)
    ensures
        flags(Seq::empty(), dest_home, force) == Some((dest_home, force)),
        flags(seq!["--force"@] + rest, dest_home, force) == flags(rest, dest_home, true),
        flags(seq!["--dest-home"@, value] + rest, dest_home, force) == flags(
            rest,
            Some(value),
            force,
        ),
        flags(seq!["--dest-home"@], dest_home, force) is None,
        word != "--force"@ && word != "--dest-home"@ ==> flags(
            seq![word] + rest,
            dest_home,
            force,
        ) is None,
{
    reveal_strlit("--force");
    reveal_strlit("--dest-home");
    assert("--force"@.len() == 7 && "--dest-home"@.len() == 11);
    assert((seq!["--force"@] + rest).skip(1) =~= rest);
    assert((seq!["--dest-home"@, value] + rest).skip(2) =~= rest);
}

/// The arguments name a source directory behind the importer's own name, and what
/// follows are flags; without a source directory they are wrong.
pub proof fn law_arguments_name_a_source(
    name: Seq<char>,
    source: Seq<char>,
    rest: Seq<Seq<char>>,
)
    ensures
        said(Seq::empty()) is None,
        said(seq![name]) is None,
        match (flags(rest, None, false), said(seq![name, source] + rest)) {
            (Some((dest_home, force)), Some((s, d, f))) => s == source && d == dest_home && f
                == force,
            (None, None) => true,
            _ => false,
        },
{
    assert((seq![name, source] + rest).skip(2) =~= rest);
}

} // verus!
