use vstd::prelude::*;
use vstd::string::StringSliceAdditionalSpecFns;
use crate::boss_launch::{REMOTE_TEMP_UNIX, REMOTE_TEMP_WINDOWS, text_equal};
use crate::exe_utils::{add_section_to_elf, add_section_to_pe, elf_add, pe_add, extract_section_from_elf,
    extract_section_from_pe, elf_lookup, pe_lookup, ExtractSectionError, SectionLookup};
use crate::filters::strings_view;
use crate::text::{concat, concat_all, contains_text, has_infix, human_bytes, human_bytes_text};

verus! {

/// The command run over ssh to find out the remote's operating system and processor. Windows
/// runs only the first line, which names Windows and the processor architecture; other systems
/// run both, and the second prints `uname -a`.
pub const OS_TEST_COMMAND: &'static str =
    "echo >/dev/null # >nul & echo Remote system is Windows %PROCESSOR_ARCHITECTURE%\necho Remote system is `uname -a`";

/// The name of the executable section that holds the embedded binaries for every platform.
pub const SECTION_NAME: &'static str = ".rjembed";

/// Whether the output of `OS_TEST_COMMAND` comes from Windows (anything else counts as a
/// Unix-like system).
pub fn remote_is_windows(os_test_output: &str) -> (r: bool)
    ensures
        r == has_infix(os_test_output@, "Windows"@),
{
    contains_text(os_test_output, "Windows")
}

/// The file extension of an executable on the remote.
pub fn binary_extension(is_windows: bool) -> (r: &'static str)
    ensures
        r@ == (if is_windows { "exe"@ } else { ""@ }),
{
    if is_windows { "exe" } else { "" }
}

/// The target triples whose binaries run on the remote, judged by the output of
/// `OS_TEST_COMMAND`, or `None` for a platform without binaries.
pub open spec fn spec_compatible_target_triples(out: Seq<char>) -> Option<Seq<Seq<char>>> {
    if has_infix(out, "Windows"@) && has_infix(out, "AMD64"@) {
        Some(seq!["x86_64-pc-windows-msvc"@, "x86_64-pc-windows-gnu"@])
    } else if has_infix(out, "Linux"@) && has_infix(out, "x86_64"@) {
        Some(seq!["x86_64-unknown-linux-musl"@])
    } else if has_infix(out, "Linux"@) && has_infix(out, "aarch64"@) {
        Some(seq!["aarch64-unknown-linux-musl"@])
    } else {
        None
    }
}

/// The target triples whose binaries run on the remote (as `spec_compatible_target_triples`
/// says), or an error naming the unknown platform.
pub fn compatible_target_triples(os_test_output: &str) -> (r: Result<Vec<String>, String>)
    ensures
        match spec_compatible_target_triples(os_test_output@) {
            Some(ts) => r matches Ok(v) && strings_view(v@) == ts,
            None => r matches Err(e) && e@ == "Unknown target platform: "@ + os_test_output@,
        },
{
    let mut v: Vec<String> = Vec::new();
    if contains_text(os_test_output, "Windows") && contains_text(os_test_output, "AMD64") {
        v.push(String::from_str("x86_64-pc-windows-msvc"));
        v.push(String::from_str("x86_64-pc-windows-gnu"));
    } else if contains_text(os_test_output, "Linux") && contains_text(os_test_output, "x86_64") {
        v.push(String::from_str("x86_64-unknown-linux-musl"));
    } else if contains_text(os_test_output, "Linux") && contains_text(os_test_output, "aarch64") {
        v.push(String::from_str("aarch64-unknown-linux-musl"));
    } else {
        proof { reveal_with_fuel(concat_all, 3); }
        return Err(concat(&["Unknown target platform: ", os_test_output]));
    }
    assert(strings_view(v@) =~= spec_compatible_target_triples(os_test_output@)->0);
    Ok(v)
}

/// Whether a target triple is among the given ones.
pub fn contains_triple(triples: &Vec<String>, triple: &str) -> (r: bool)
    ensures
        r == strings_view(triples@).contains(triple@),
{
    let mut i: usize = 0;
    while i < triples.len()
        invariant
            0 <= i <= triples.len(),
            forall|j: int| 0 <= j < i ==> triples@[j]@ != triple@,
        decreases triples.len() - i,
    {
        if text_equal(triples[i].as_str(), triple) {
            assert(strings_view(triples@)[i as int] == triple@);
            return true;
        }
        i = i + 1;
    }
    assert forall|j: int| 0 <= j < strings_view(triples@).len() implies strings_view(triples@)[j] != triple@ by {
        assert(triples@[j]@ != triple@);
    }
    false
}

/// A binary of rjrssync built for one platform, without embedded binaries of its own.
pub struct EmbeddedBinary {
    pub target_triple: String,
    pub data: Vec<u8>,
}

/// The binaries embedded in an rjrssync executable, one for each supported platform.
pub struct EmbeddedBinaries {
    pub binaries: Vec<EmbeddedBinary>,
}

/// The text of a list of target triples as a debug listing writes it: `["a", "b"]`.
pub open spec fn quoted_list(ts: Seq<Seq<char>>) -> Seq<char>
    decreases ts.len(),
{
    if ts.len() == 0 {
        Seq::empty()
    } else if ts.len() == 1 {
        "\""@ + ts[0] + "\""@
    } else {
        quoted_list(ts.drop_last()) + ", \""@ + ts.last() + "\""@
    }
}

/// Writes a list of target triples as `quoted_list` says, in square brackets.
fn debug_list(ts: &Vec<String>) -> (r: String)
    ensures
        r@ == "["@ + quoted_list(strings_view(ts@)) + "]"@,
{
    let mut r = String::from_str("[");
    let mut i: usize = 0;
    proof { reveal_strlit("["); }
    while i < ts.len()
        invariant
            0 <= i <= ts.len(),
            r@ == "["@ + quoted_list(strings_view(ts@).take(i as int)),
        decreases ts.len() - i,
    {
        proof { reveal_strlit("\""); reveal_strlit(", \""); }
        let ghost before = r@;
        if i > 0 {
            r.append(", \"");
        } else {
            r.append("\"");
        }
        r.append(ts[i].as_str());
        r.append("\"");
        proof {
            let t = strings_view(ts@).take(i + 1);
            assert(t.drop_last() =~= strings_view(ts@).take(i as int));
            assert(t.last() == ts@[i as int]@);
            if i == 0 {
                assert(quoted_list(t) == "\""@ + t[0] + "\""@);
                assert(r@ =~= "["@ + quoted_list(t));
            } else {
                assert(r@ =~= "["@ + quoted_list(t));
            }
        }
        i = i + 1;
    }
    assert(strings_view(ts@).take(ts.len() as int) =~= strings_view(ts@));
    proof { reveal_strlit("]"); }
    r.append("]");
    r
}

/// The index of the first embedded binary for one of the compatible target triples, if any.
pub open spec fn first_compatible(binaries: Seq<EmbeddedBinary>, compatible: Seq<Seq<char>>) -> Option<int> {
    if exists|i: int| 0 <= i < binaries.len() && compatible.contains(#[trigger] binaries[i].target_triple@) {
        Some(choose|i: int| 0 <= i < binaries.len() && compatible.contains(#[trigger] binaries[i].target_triple@)
            && forall|j: int| 0 <= j < i ==> !compatible.contains(#[trigger] binaries[j].target_triple@))
    } else {
        None
    }
}

/// Finds the first embedded binary that runs on the remote, or says that there is none.
pub fn find_embedded_binary(binaries: &EmbeddedBinaries, compatible: &Vec<String>) -> (r: Result<usize, String>)
    ensures
        match r {
            Ok(i) => i < binaries.binaries@.len()
                && strings_view(compatible@).contains(binaries.binaries@[i as int].target_triple@)
                && forall|j: int| 0 <= j < i ==> !strings_view(compatible@).contains(#[trigger] binaries.binaries@[j].target_triple@),
            Err(e) => (forall|j: int| 0 <= j < binaries.binaries@.len()
                    ==> !strings_view(compatible@).contains(#[trigger] binaries.binaries@[j].target_triple@))
                && e@ == "No embedded binary for any compatible target triple ("@ + "["@ + quoted_list(strings_view(compatible@))
                    + "]"@ + "). Run --list-embedded-binaries to check what is available."@,
        },
{
    let bs = &binaries.binaries;
    let mut i: usize = 0;
    while i < bs.len()
        invariant
            0 <= i <= bs.len(),
            bs@ == binaries.binaries@,
            forall|j: int| 0 <= j < i ==> !strings_view(compatible@).contains(#[trigger] bs@[j].target_triple@),
        decreases bs.len() - i,
    {
        let found = contains_triple(compatible, bs[i].target_triple.as_str());
        if found {
            assert(strings_view(compatible@).contains(bs@[i as int].target_triple@));
            return Ok(i);
        }
        i = i + 1;
    }
    let listed = debug_list(compatible);
    proof { reveal_with_fuel(concat_all, 4); }
    Err(concat(&["No embedded binary for any compatible target triple (", listed.as_str(),
        "). Run --list-embedded-binaries to check what is available."]))
}

/// The binary that becomes rjrssync on the remote: the lite binary for its platform with the
/// lite binaries of every platform embedded in it, so that it can deploy further itself.
pub open spec fn spec_big_binary(target_triple: Seq<char>, lite: Seq<u8>, embedded: Seq<u8>) -> Option<Seq<u8>> {
    if has_infix(target_triple, "windows"@) {
        pe_add(lite, SECTION_NAME.spec_bytes(), embedded)
    } else if has_infix(target_triple, "linux"@) {
        elf_add(lite, SECTION_NAME.spec_bytes(), embedded)
    } else {
        None
    }
}

/// Builds the binary to deploy to a platform (as `spec_big_binary` says) from its lite binary and
/// the embedded binaries data, or the error that stopped it.
///
/// Windows binaries get their section from `add_section_to_pe`, the same code whose sections
/// `extract_section_from_pe` reads back, so that what is added here is proved to be found again
/// (`lemma_pe_added_section_found`). The section it adds has a virtual size of one, since its
/// data is not meant to be loaded into memory, and a raw size padded to the file alignment.
pub fn create_big_binary(target_triple: &str, lite: Vec<u8>, embedded_binaries_data: Vec<u8>) -> (r: Result<Vec<u8>, String>)
    ensures
        match spec_big_binary(target_triple@, lite@, embedded_binaries_data@) {
            Some(out) => r matches Ok(v) && v@ == out,
            None => r is Err,
        },
        !has_infix(target_triple@, "windows"@) && !has_infix(target_triple@, "linux"@) ==>
            (r matches Err(e) && e@ == "No executable generating code for this platform"@),
{
    proof {
        reveal_strlit(".rjembed");
        vstd::string::is_ascii_spec_bytes(SECTION_NAME);
    }
    if contains_text(target_triple, "windows") {
        add_section_to_pe(lite, SECTION_NAME, embedded_binaries_data)
    } else if contains_text(target_triple, "linux") {
        add_section_to_elf(lite, SECTION_NAME, embedded_binaries_data)
    } else {
        Err(String::from_str("No executable generating code for this platform"))
    }
}

/// The embedded binaries data inside an executable of this platform (a PE file on Windows, an
/// ELF file elsewhere), or an error for an executable without it or that cannot be read.
pub fn embedded_binaries_data(exe: Vec<u8>, windows: bool) -> (r: Result<Vec<u8>, String>)
    ensures
        ({
            let found = if windows { pe_lookup(exe@, SECTION_NAME.spec_bytes()) }
                else { elf_lookup(exe@, SECTION_NAME.spec_bytes()) };
            match found {
                SectionLookup::Found(d) => r matches Ok(v) && v@ == d,
                SectionLookup::NotFound => r matches Err(e) && e@ == "No embedded binaries in this executable"@,
                SectionLookup::Malformed(m) => r matches Err(e) && e@ == m,
            }
        }),
{
    let found = if windows { extract_section_from_pe(exe, SECTION_NAME) } else { extract_section_from_elf(exe, SECTION_NAME) };
    match found {
        Ok(d) => Ok(d),
        Err(ExtractSectionError::SectionNotFound) => Err(String::from_str("No embedded binaries in this executable")),
        Err(ExtractSectionError::Other(e)) => Err(e),
    }
}

/// Where rjrssync goes on the remote: the remote's temporary folder, and the folder inside it.
pub open spec fn spec_remote_folders(is_windows: bool) -> (Seq<char>, Seq<char>) {
    if is_windows {
        (REMOTE_TEMP_WINDOWS@, REMOTE_TEMP_WINDOWS@ + "\\rjrssync"@)
    } else {
        (REMOTE_TEMP_UNIX@, REMOTE_TEMP_UNIX@ + "/rjrssync"@)
    }
}

/// Where rjrssync goes on the remote, as `spec_remote_folders` says.
pub fn remote_folders(is_windows: bool) -> (r: (String, String))
    ensures
        (r.0@, r.1@) == spec_remote_folders(is_windows),
{
    proof { reveal_with_fuel(concat_all, 3); }
    if is_windows {
        (String::from_str(REMOTE_TEMP_WINDOWS), concat(&[REMOTE_TEMP_WINDOWS, "\\rjrssync"]))
    } else {
        (String::from_str(REMOTE_TEMP_UNIX), concat(&[REMOTE_TEMP_UNIX, "/rjrssync"]))
    }
}

/// The message that asks to deploy: why, how large the binary is and where it goes.
pub open spec fn spec_deploy_message(hostname: Seq<char>, reason: Seq<char>, binary_size: u64, folder: Seq<char>) -> Seq<char> {
    "rjrssync needs to be deployed onto remote target "@ + hostname + " because "@ + reason
        + ". A pre-built "@ + human_bytes_text(binary_size) + " binary will be copied onto the remote target into the folder '"@
        + folder + "'"@
}

/// The message that asks to deploy, as `spec_deploy_message` says.
pub fn deploy_message(hostname: &str, reason: &str, binary_size: u64, folder: &str) -> (r: String)
    ensures
        r@ == spec_deploy_message(hostname@, reason@, binary_size, folder@),
{
    let size = human_bytes(binary_size);
    proof { reveal_with_fuel(concat_all, 10); }
    concat(&["rjrssync needs to be deployed onto remote target ", hostname, " because ", reason,
        ". A pre-built ", size.as_str(), " binary will be copied onto the remote target into the folder '", folder, "'"])
}

/// What to do when rjrssync has to be deployed to a remote.
#[derive(Clone, Copy, Debug, PartialEq, Eq, Structural)]
pub enum NeedsDeployBehaviour {
    /// Ask the user.
    Prompt,
    /// Stop with an error.
    Error,
    /// Deploy without asking.
    Deploy,
}

/// Decides, under a settled behaviour (not `Prompt`), whether to deploy: `Ok` to go ahead, or the
/// error that stops the launch.
pub fn check_deploy_ok(behaviour: NeedsDeployBehaviour, msg: &str) -> (r: Result<(), String>)
    requires
        behaviour != NeedsDeployBehaviour::Prompt,
    ensures
        behaviour == NeedsDeployBehaviour::Deploy ==> r is Ok,
        behaviour == NeedsDeployBehaviour::Error ==>
            (r matches Err(e) && e@ == msg@ + ". Will not deploy. See --needs-deploy."@),
{
    match behaviour {
        NeedsDeployBehaviour::Deploy => Ok(()),
        _ => {
            proof { reveal_with_fuel(concat_all, 3); }
            Err(concat(&[msg, ". Will not deploy. See --needs-deploy."]))
        }
    }
}

/// The scp destination that the staging folder is copied to: the remote's temporary folder.
pub fn scp_destination(ssh_target: &str, remote_temp: &str) -> (r: String)
    ensures
        r@ == ssh_target@ + ":"@ + remote_temp@,
{
    proof { reveal_with_fuel(concat_all, 4); }
    concat(&[ssh_target, ":", remote_temp])
}

/// The command run over ssh on a Unix remote to make the deployed binary executable.
pub fn make_executable_command(remote_folder: &str) -> (r: String)
    ensures
        r@ == "cd "@ + remote_folder@ + " && chmod +x rjrssync"@,
{
    proof { reveal_with_fuel(concat_all, 4); }
    concat(&["cd ", remote_folder, " && chmod +x rjrssync"])
}

} // verus!
