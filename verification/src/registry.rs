//! Probe Registry: the fixed, ordered table of package-manager query
//! commands.  Read-only configuration data; its order determines the order
//! of the entries in the assembled report.  Supporting another package
//! manager means appending one entry here and nothing else.

use vstd::prelude::*;

verus! {

/// One package-manager query command: the executable to invoke, its
/// arguments, and the label under which its count is reported.
pub struct ProbeSpec {
    pub executable: String,
    pub arguments: Vec<String>,
    pub label: String,
}

fn no_args() -> (v: Vec<String>)
    ensures
        v.deep_view() == Seq::<Seq<char>>::empty(),
{
    let v: Vec<String> = Vec::new();
    proof {
        assert(v.deep_view() =~= Seq::<Seq<char>>::empty());
    }
    v
}

fn one_arg(a: &str) -> (v: Vec<String>)
    ensures
        v.deep_view() == seq![a@],
{
    let mut v: Vec<String> = Vec::new();
    v.push(a.to_owned());
    proof {
        assert(v.deep_view() =~= seq![a@]);
    }
    v
}

fn two_args(a: &str, b: &str) -> (v: Vec<String>)
    ensures
        v.deep_view() == seq![a@, b@],
{
    let mut v: Vec<String> = Vec::new();
    v.push(a.to_owned());
    v.push(b.to_owned());
    proof {
        assert(v.deep_view() =~= seq![a@, b@]);
    }
    v
}

fn three_args(a: &str, b: &str, c: &str) -> (v: Vec<String>)
    ensures
        v.deep_view() == seq![a@, b@, c@],
{
    let mut v: Vec<String> = Vec::new();
    v.push(a.to_owned());
    v.push(b.to_owned());
    v.push(c.to_owned());
    proof {
        assert(v.deep_view() =~= seq![a@, b@, c@]);
    }
    v
}

fn probe(executable: &str, arguments: Vec<String>, label: &str) -> (p: ProbeSpec)
    ensures
        p.executable@ == executable@,
        p.arguments == arguments,
        p.label@ == label@,
{
    ProbeSpec { executable: executable.to_owned(), arguments, label: label.to_owned() }
}

/// The fixed probe table, one entry per supported package manager, in the
/// order their counts appear in the report.
pub fn probe_registry() -> (r: Vec<ProbeSpec>)
    ensures
        r@.len() == 15,
        r@[0].executable@ == "xbps-query"@ && r@[0].arguments.deep_view() == seq!["-l"@]
            && r@[0].label@ == "xbps"@,
        r@[1].executable@ == "apk"@ && r@[1].arguments.deep_view() == seq!["info"@]
            && r@[1].label@ == "apk"@,
        r@[2].executable@ == "rpm"@ && r@[2].arguments.deep_view() == seq!["-qa"@]
            && r@[2].label@ == "rpm"@,
        r@[3].executable@ == "flatpak"@ && r@[3].arguments.deep_view() == seq!["list"@]
            && r@[3].label@ == "flatpak"@,
        r@[4].executable@ == "dpkg-query"@ && r@[4].arguments.deep_view() == seq![
            "-f"@,
            "'.\\n'"@,
            "-W"@,
        ] && r@[4].label@ == "apt"@,
        r@[5].executable@ == "pacman"@ && r@[5].arguments.deep_view() == seq!["-Q"@, "-q"@]
            && r@[5].label@ == "pacman"@,
        r@[6].executable@ == "qlist"@ && r@[6].arguments.deep_view() == seq!["-I"@]
            && r@[6].label@ == "portage"@,
        r@[7].executable@ == "pkg"@ && r@[7].arguments.deep_view() == seq!["info"@]
            && r@[7].label@ == "pkg"@,
        r@[8].executable@ == "pkgin"@ && r@[8].arguments.deep_view() == seq!["info"@]
            && r@[8].label@ == "pkgin"@,
        r@[9].executable@ == "pkg_info"@ && r@[9].arguments.deep_view() == Seq::<
            Seq<char>,
        >::empty() && r@[9].label@ == "pkg_info"@,
        r@[10].executable@ == "snap"@ && r@[10].arguments.deep_view() == seq!["list"@]
            && r@[10].label@ == "snap"@,
        r@[11].executable@ == "eopkg"@ && r@[11].arguments.deep_view() == seq!["li"@]
            && r@[11].label@ == "eopkg"@,
        r@[12].executable@ == "opkg"@ && r@[12].arguments.deep_view() == seq!["list-installed"@]
            && r@[12].label@ == "opkg"@,
        r@[13].executable@ == "nix-user-pkgs"@ && r@[13].arguments.deep_view() == Seq::<
            Seq<char>,
        >::empty() && r@[13].label@ == "nix-user"@,
        r@[14].executable@ == "nix-store"@ && r@[14].arguments.deep_view() == seq![
            "-qR"@,
            "/run/current-system/sw"@,
        ] && r@[14].label@ == "nix-system"@,
{
    let mut r: Vec<ProbeSpec> = Vec::new();
    r.push(probe("xbps-query", one_arg("-l"), "xbps"));
    r.push(probe("apk", one_arg("info"), "apk"));
    r.push(probe("rpm", one_arg("-qa"), "rpm"));
    r.push(probe("flatpak", one_arg("list"), "flatpak"));
    r.push(probe("dpkg-query", three_args("-f", "'.\\n'", "-W"), "apt"));
    r.push(probe("pacman", two_args("-Q", "-q"), "pacman"));
    r.push(probe("qlist", one_arg("-I"), "portage"));
    r.push(probe("pkg", one_arg("info"), "pkg"));
    r.push(probe("pkgin", one_arg("info"), "pkgin"));
    r.push(probe("pkg_info", no_args(), "pkg_info"));
    r.push(probe("snap", one_arg("list"), "snap"));
    r.push(probe("eopkg", one_arg("li"), "eopkg"));
    r.push(probe("opkg", one_arg("list-installed"), "opkg"));
    r.push(probe("nix-user-pkgs", no_args(), "nix-user"));
    r.push(probe("nix-store", two_args("-qR", "/run/current-system/sw"), "nix-system"));
    r
}

} // verus!
