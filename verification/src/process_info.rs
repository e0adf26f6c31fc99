//! Who makes a request: the program behind a process.

use crate::path::UnixPath;
use crate::text;
use vstd::prelude::*;
use vstd::string::*;
use vstd::utf8::*;

verus! {

/// Identity of the process making a filesystem request.
#[derive(Debug, Clone, PartialEq, Eq)]
pub struct ProcessIdentity {
    /// The binary that the process runs.
    pub path: UnixPath,
    /// The name that the process goes by.
    pub comm: String,
}

/// Resolves a PID to the identity of the process running it.
pub trait ProcessResolver {
    fn resolve(&self, pid: u32) -> Option<ProcessIdentity>;
}

/// Resolves process identity via `/proc/<pid>/exe` and `/proc/<pid>/comm`.
pub struct ProcResolver;

impl ProcResolver {
    /// The link that leads to the binary of the process `pid`.
    pub fn exe_link(&self, pid: u32) -> (r: UnixPath)
        ensures
            r@ == encode_utf8("/proc/"@ + text::decimal(pid as nat) + "/exe"@),
    {
        let mut s = String::new();
        s.append("/proc/");
        text::push_decimal(&mut s, pid as u64);
        s.append("/exe");
        assert(s@ =~= "/proc/"@ + text::decimal(pid as nat) + "/exe"@);
        UnixPath::new(s.as_str())
    }

    /// The file that holds the name of the process `pid`.
    pub fn comm_file(&self, pid: u32) -> (r: UnixPath)
        ensures
            r@ == encode_utf8("/proc/"@ + text::decimal(pid as nat) + "/comm"@),
    {
        let mut s = String::new();
        s.append("/proc/");
        text::push_decimal(&mut s, pid as u64);
        s.append("/comm");
        assert(s@ =~= "/proc/"@ + text::decimal(pid as nat) + "/comm"@);
        UnixPath::new(s.as_str())
    }

    /// The identity of a process, from what its `exe` link and its `comm`
    /// file gave. Without the link there is none; without the name it is
    /// empty.
    pub fn identify(&self, exe: Option<UnixPath>, comm: Option<&str>) -> (r: Option<
        ProcessIdentity,
    >)
        ensures
            r is Some <==> exe is Some,
            r is Some ==> r->0.path@ == exe->0@,
            r is Some ==> r->0.comm@ == match comm {
                Some(name) => text::trimmed(name@),
                None => Seq::<char>::empty(),
            },
    {
        match exe {
            None => None,
            Some(path) => {
                let comm = match comm {
                    Some(name) => text::trim(text::chars_of(name).as_slice()),
                    None => String::new(),
                };
                Some(ProcessIdentity { path, comm })
            },
        }
    }
}

} // verus!
