//! The report of what is installed.

use vstd::prelude::*;

verus! {

/// A binary found under the installation root, with the versions of it
/// that are installed.
#[derive(Debug)]
pub struct InstalledResource {
    pub name: String,
    pub versions: Vec<String>,
}

/// The line that says that nothing is installed.
pub open spec fn nothing_installed_text() -> Seq<char> {
    "No installations found."@
}

/// The line that suggests how to begin.
pub open spec fn getting_started_text() -> Seq<char> {
    "Try running: cftesting list-channels and cftesting install <resource>@version to begin"@
}

/// The lines that present one binary: its name, then one line per version.
/// A binary without versions is not presented.
pub open spec fn resource_lines(resource: InstalledResource) -> Seq<Seq<char>> {
    if resource.versions@.len() == 0 {
        seq![]
    } else {
        seq![resource.name@ + ":"@] + resource.versions@.map_values(
            |v: String| "  - "@ + v@,
        )
    }
}

/// The lines that present each binary, in order.
pub open spec fn resources_lines(resources: Seq<InstalledResource>) -> Seq<Seq<char>>
    decreases resources.len(),
{
    if resources.len() == 0 {
        seq![]
    } else {
        resources_lines(resources.drop_last()) + resource_lines(resources.last())
    }
}

/// Whether some binary has a version installed.
pub open spec fn any_installed(resources: Seq<InstalledResource>) -> bool {
    exists|i: int| 0 <= i < resources.len() && resources[i].versions@.len() > 0
}

/// The report: nothing when the installation root does not exist; otherwise
/// each binary that has versions, or the suggestion how to begin when none has.
pub open spec fn report_lines(root_exists: bool, resources: Seq<InstalledResource>) -> Seq<
    Seq<char>,
> {
    if !root_exists {
        seq![nothing_installed_text()]
    } else if any_installed(resources) {
        resources_lines(resources)
    } else {
        seq![nothing_installed_text(), getting_started_text()]
    }
}

/// No binary with versions presents no line.
proof fn lemma_nothing_presented(resources: Seq<InstalledResource>)
    requires
        !any_installed(resources),
    ensures
        resources_lines(resources) == Seq::<Seq<char>>::empty(),
    decreases resources.len(),
{
    if resources.len() > 0 {
        let earlier = resources.drop_last();
        assert(!any_installed(earlier)) by {
            if any_installed(earlier) {
                let i = choose|i: int| 0 <= i < earlier.len() && earlier[i].versions@.len() > 0;
                assert(resources[i] == earlier[i]);
            }
        }
        lemma_nothing_presented(earlier);
        assert(resources[resources.len() - 1].versions@.len() == 0);
        assert(resources_lines(resources) =~= Seq::<Seq<char>>::empty());
    }
}

/// The lines that present a binary.
fn resource_report(resource: &InstalledResource) -> (res: Vec<String>)
    ensures
        res@.map_values(|line: String| line@) == resource_lines(*resource),
{
    let mut lines: Vec<String> = Vec::new();
    let n = resource.versions.len();
    if n == 0 {
        assert(lines@.map_values(|line: String| line@) =~= resource_lines(*resource));
        return lines;
    }
    let mut header = resource.name.clone();
    header.append(":");
    lines.push(header);
    let mut i: usize = 0;
    while i < n
        invariant
            n == resource.versions@.len(),
            i <= n,
            lines@.map_values(|line: String| line@) =~= seq![resource.name@ + ":"@]
                + resource.versions@.take(i as int).map_values(|v: String| "  - "@ + v@),
        decreases n - i,
    {
        let mut line = String::from_str("  - ");
        line.append(resource.versions[i].as_str());
        let ghost before = lines@;
        lines.push(line);
        assert(resource.versions@.take(i + 1) =~= resource.versions@.take(i as int).push(
            resource.versions@[i as int],
        ));
        assert(lines@.map_values(|line: String| line@) =~= before.map_values(
            |line: String| line@,
        ).push(line@));
        i = i + 1;
    }
    assert(resource.versions@.take(n as int) =~= resource.versions@);
    lines
}

/// The lines that report what is installed, given whether the installation
/// root exists and the binaries found under it with their versions.
pub fn installed_report(root_exists: bool, resources: &Vec<InstalledResource>) -> (res: Vec<
    String,
>)
    ensures
        res@.map_values(|line: String| line@) == report_lines(root_exists, resources@),
{
    let mut lines: Vec<String> = Vec::new();
    if !root_exists {
        lines.push(String::from_str("No installations found."));
        assert(lines@.map_values(|line: String| line@) =~= report_lines(root_exists, resources@));
        return lines;
    }
    let mut found_any = false;
    let n = resources.len();
    let mut i: usize = 0;
    while i < n
        invariant
            n == resources@.len(),
            i <= n,
            found_any == any_installed(resources@.take(i as int)),
            lines@.map_values(|line: String| line@) == resources_lines(
                resources@.take(i as int),
            ),
        decreases n - i,
    {
        let resource = &resources[i];
        let more = resource_report(resource);
        let ghost before = lines@;
        let ghost taken = resources@.take(i + 1);
        assert(taken.drop_last() =~= resources@.take(i as int));
        assert(taken.last() == resources@[i as int]);
        if resource.versions.len() > 0 {
            found_any = true;
            assert(taken[i as int] == resources@[i as int]);
        } else {
            proof {
                if any_installed(taken) {
                    let k = choose|k: int| 0 <= k < taken.len() && taken[k].versions@.len() > 0;
                    assert(resources@.take(i as int)[k] == taken[k]);
                }
            }
        }
        let mut j: usize = 0;
        let m = more.len();
        let ghost more_view = more@.map_values(|line: String| line@);
        while j < m
            invariant
                m == more@.len(),
                j <= m,
                more_view == more@.map_values(|line: String| line@),
                lines@.map_values(|line: String| line@) =~= before.map_values(
                    |line: String| line@,
                ) + more_view.take(j as int),
            decreases m - j,
        {
            let ghost prev = lines@;
            lines.push(more[j].clone());
            assert(more_view.take(j + 1) =~= more_view.take(j as int).push(more_view[j as int]));
            assert(lines@.map_values(|line: String| line@) =~= prev.map_values(
                |line: String| line@,
            ).push(more@[j as int]@));
            j = j + 1;
        }
        assert(more_view.take(m as int) =~= more_view);
        i = i + 1;
    }
    assert(resources@.take(n as int) =~= resources@);
    if !found_any {
        proof {
            lemma_nothing_presented(resources@);
        }
        lines.push(String::from_str("No installations found."));
        lines.push(
            String::from_str(
                "Try running: cftesting list-channels and cftesting install <resource>@version to begin",
            ),
        );
        assert(lines@.map_values(|line: String| line@) =~= report_lines(root_exists, resources@));
    }
    lines
}

/// The report is never empty, and it begins with the line that says that
/// nothing is installed exactly when the root is missing or no binary has a version.
pub proof fn lemma_report_shape(root_exists: bool, resources: Seq<InstalledResource>)
    ensures
        report_lines(root_exists, resources).len() > 0,
        (report_lines(root_exists, resources)[0] == nothing_installed_text()) <==> (!root_exists
            || !any_installed(resources)),
{
    if root_exists && any_installed(resources) {
        lemma_first_presented_line(resources);
        let first = report_lines(root_exists, resources)[0];
        reveal_strlit("No installations found.");
        reveal_strlit(":");
        assert(first.last() == ':');
        assert(nothing_installed_text().last() == '.');
    }
}

/// When some binary has a version, the first line presents a binary's name.
proof fn lemma_first_presented_line(resources: Seq<InstalledResource>)
    requires
        any_installed(resources),
    ensures
        resources_lines(resources).len() > 0,
        exists|i: int|
            0 <= i < resources.len() && resources_lines(resources)[0] == resources[i].name@
                + ":"@,
    decreases resources.len(),
{
    let earlier = resources.drop_last();
    let last = resources.last();
    if any_installed(earlier) {
        lemma_first_presented_line(earlier);
        let i = choose|i: int|
            0 <= i < earlier.len() && resources_lines(earlier)[0] == earlier[i].name@ + ":"@;
        assert(resources[i] == earlier[i]);
        assert(resources_lines(resources)[0] == resources_lines(earlier)[0]);
    } else {
        lemma_nothing_presented(earlier);
        let k = choose|k: int| 0 <= k < resources.len() && resources[k].versions@.len() > 0;
        if k < resources.len() - 1 {
            assert(earlier[k] == resources[k]);
        }
        assert(last.versions@.len() > 0);
        assert(resources_lines(resources) =~= resource_lines(last));
        assert(resources_lines(resources)[0] == resources[resources.len() - 1].name@ + ":"@);
    }
}

/// The lines of binary `i`, which has versions, stand together among the
/// lines of all binaries: its name, then each of its versions in order.
proof fn lemma_resource_block(resources: Seq<InstalledResource>, i: int)
    requires
        0 <= i < resources.len(),
        resources[i].versions@.len() > 0,
    ensures
        exists|k: int|
            #![trigger resources_lines(resources)[k]]
            {
                &&& 0 <= k
                &&& k + resources[i].versions@.len() < resources_lines(resources).len()
                &&& resources_lines(resources)[k] == resources[i].name@ + ":"@
                &&& forall|m: int|
                    0 <= m < resources[i].versions@.len() ==> resources_lines(resources)[k + 1
                        + m] == "  - "@ + resources[i].versions@[m]@
            },
    decreases resources.len(),
{
    let earlier = resources.drop_last();
    let block = resource_lines(resources.last());
    assert(resources_lines(resources) == resources_lines(earlier) + block);
    if i == resources.len() - 1 {
        let k = resources_lines(earlier).len() as int;
        assert(resources_lines(resources)[k] == block[0]);
        assert forall|m: int| 0 <= m < resources[i].versions@.len() implies resources_lines(
            resources,
        )[k + 1 + m] == "  - "@ + resources[i].versions@[m]@ by {
            assert(resources_lines(resources)[k + 1 + m] == block[1 + m]);
        }
        assert(resources_lines(resources)[k] == resources[i].name@ + ":"@);
    } else {
        assert(earlier[i] == resources[i]);
        lemma_resource_block(earlier, i);
        let k = choose|k: int|
            #![trigger resources_lines(earlier)[k]]
            {
                &&& 0 <= k
                &&& k + earlier[i].versions@.len() < resources_lines(earlier).len()
                &&& resources_lines(earlier)[k] == earlier[i].name@ + ":"@
                &&& forall|m: int|
                    0 <= m < earlier[i].versions@.len() ==> resources_lines(earlier)[k + 1 + m]
                        == "  - "@ + earlier[i].versions@[m]@
            };
        assert(resources_lines(resources)[k] == resources_lines(earlier)[k]);
        assert forall|m: int| 0 <= m < resources[i].versions@.len() implies resources_lines(
            resources,
        )[k + 1 + m] == "  - "@ + resources[i].versions@[m]@ by {
            assert(resources_lines(resources)[k + 1 + m] == resources_lines(earlier)[k + 1 + m]);
        }
    }
}

/// When the installation root exists, every installed version of every
/// binary is reported: the binary's name, then each of its versions, in order.
pub proof fn lemma_report_lists_every_version(resources: Seq<InstalledResource>, i: int)
    requires
        0 <= i < resources.len(),
        resources[i].versions@.len() > 0,
    ensures
        exists|k: int|
            #![trigger report_lines(true, resources)[k]]
            {
                &&& 0 <= k
                &&& k + resources[i].versions@.len() < report_lines(true, resources).len()
                &&& report_lines(true, resources)[k] == resources[i].name@ + ":"@
                &&& forall|m: int|
                    0 <= m < resources[i].versions@.len() ==> report_lines(true, resources)[k
                        + 1 + m] == "  - "@ + resources[i].versions@[m]@
            },
{
    assert(any_installed(resources));
    lemma_resource_block(resources, i);
    let k = choose|k: int|
        #![trigger resources_lines(resources)[k]]
        {
            &&& 0 <= k
            &&& k + resources[i].versions@.len() < resources_lines(resources).len()
            &&& resources_lines(resources)[k] == resources[i].name@ + ":"@
            &&& forall|m: int|
                0 <= m < resources[i].versions@.len() ==> resources_lines(resources)[k + 1 + m]
                    == "  - "@ + resources[i].versions@[m]@
        };
    assert(report_lines(true, resources)[k] == resources_lines(resources)[k]);
}

} // verus!
