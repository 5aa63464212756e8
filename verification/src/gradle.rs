//! Editing the Gradle build files of a generated Android project.
use vstd::prelude::*;
use crate::config::list_chars;
use crate::lines::{
    chars_equal, line_views, lines_of_text, render_lines, rendered, split_lines,
    starts_with_after_space, trim_chars, trimmed, trimmed_start,
};
use crate::strings::{chars_of, has_prefix, lemma_run_end, push_chars_of, run_end};

verus! {

/// Whether a line opens a block of repositories.
pub open spec fn opens_repositories(line: Seq<char>) -> bool {
    trimmed(line) == "repositories {"@
}

/// The line that declares a Maven repository.
pub open spec fn repository_entry(url: Seq<char>) -> Seq<char> {
    "        maven { url = uri(\""@ + url + "\") }"@
}

/// The lines with the repositories declared in the first block of
/// repositories: one line for each, in their order, behind the line that
/// opens the block. Without such a block the lines stay as they are.
pub open spec fn with_repositories(lines: Seq<Seq<char>>, urls: Seq<Seq<char>>) -> Seq<Seq<char>> {
    let at = run_end(lines, 0, |l: Seq<char>| !opens_repositories(l));
    if 0 <= at < lines.len() {
        lines.take(at + 1) + urls.map_values(|u: Seq<char>| repository_entry(u)) + lines.skip(
            at + 1,
        )
    } else {
        lines
    }
}

/// A build file with the repositories declared in its first block of
/// repositories.
pub open spec fn repositories_applied(content: Seq<char>, urls: Seq<Seq<char>>) -> Seq<char> {
    rendered(with_repositories(split_lines(content), urls))
}

fn line_of_parts(head: &str, middle: &str, tail: &str) -> (line: Vec<char>)
    ensures
        line@ == head@ + middle@ + tail@,
{
    let mut line: Vec<char> = Vec::new();
    push_chars_of(&mut line, head);
    push_chars_of(&mut line, middle);
    push_chars_of(&mut line, tail);
    assert(line@ =~= head@ + middle@ + tail@);
    line
}

fn copy_line(line: &Vec<char>) -> (copy: Vec<char>)
    ensures
        copy@ == line@,
{
    let mut copy: Vec<char> = Vec::new();
    let mut k: usize = 0;
    while k < line.len()
        invariant
            k <= line.len(),
            copy@ == line@.take(k as int),
        decreases line.len() - k,
    {
        copy.push(line[k]);
        assert(line@.take(k + 1) =~= line@.take(k as int).push(line@[k as int]));
        k += 1;
    }
    assert(line@.take(line.len() as int) =~= line@);
    copy
}

/// Declares the repositories in the first block of repositories of a build
/// file, and ends the file with a line feed.
pub fn apply_repositories(content: &str, repos: &Vec<String>) -> (out: String)
    ensures
        out@ == repositories_applied(content@, list_chars(repos@)),
{
    let lines = lines_of_text(content);
    let ghost all = line_views(lines@);
    let ghost urls = list_chars(repos@);
    let ghost p = |l: Seq<char>| !opens_repositories(l);
    let mut out: Vec<Vec<char>> = Vec::new();
    let mut inserted = false;
    let mut i: usize = 0;
    proof {
        assert(line_views(out@) =~= all.take(0));
        lemma_run_end(all, 0, p);
    }
    while i < lines.len()
        invariant
            i <= lines.len(),
            0 <= run_end(all, 0, p) <= all.len(),
            all == line_views(lines@),
            urls == list_chars(repos@),
            p == |l: Seq<char>| !opens_repositories(l),
            !inserted ==> line_views(out@) == all.take(i as int) && run_end(all, i as int, p)
                == run_end(all, 0, p),
            inserted ==> run_end(all, 0, p) < i && line_views(out@) == all.take(
                run_end(all, 0, p) + 1,
            ) + urls.map_values(|u: Seq<char>| repository_entry(u)) + all.subrange(
                run_end(all, 0, p) + 1,
                i as int,
            ),
        decreases lines.len() - i,
    {
        let ghost before = line_views(out@);
        let ghost at = run_end(all, 0, p);
        out.push(copy_line(&lines[i]));
        proof {
            assert(line_views(out@) =~= before.push(all[i as int]));
            assert(all.take(i + 1) =~= all.take(i as int).push(all[i as int]));
            if inserted {
                assert(all.subrange(at + 1, i + 1) =~= all.subrange(at + 1, i as int).push(
                    all[i as int],
                ));
                assert(line_views(out@) =~= all.take(at + 1) + urls.map_values(
                    |u: Seq<char>| repository_entry(u),
                ) + all.subrange(at + 1, i + 1));
            }
        }
        let t = trim_chars(&lines[i]);
        if !inserted && chars_equal(&t, "repositories {") {
            let ghost head = line_views(out@);
            let mut k: usize = 0;
            proof {
                assert(urls.take(0).map_values(|u: Seq<char>| repository_entry(u)) =~= Seq::<
                    Seq<char>,
                >::empty());
                assert(head + Seq::<Seq<char>>::empty() =~= head);
            }
            while k < repos.len()
                invariant
                    k <= repos.len(),
                    urls == list_chars(repos@),
                    line_views(out@) == head + urls.take(k as int).map_values(
                        |u: Seq<char>| repository_entry(u),
                    ),
                decreases repos.len() - k,
            {
                let ghost so_far = line_views(out@);
                let entry = line_of_parts(
                    "        maven { url = uri(\"",
                    repos[k].as_str(),
                    "\") }",
                );
                out.push(entry);
                proof {
                    assert(urls.take(k + 1) =~= urls.take(k as int).push(urls[k as int]));
                    assert(line_views(out@) =~= so_far.push(repository_entry(urls[k as int])));
                    assert(so_far.push(repository_entry(urls[k as int])) =~= head + urls.take(
                        k + 1,
                    ).map_values(|u: Seq<char>| repository_entry(u)));
                }
                k += 1;
            }
            proof {
                assert(urls.take(repos.len() as int) =~= urls);
                assert(run_end(all, i as int, p) == i);
                assert(all.subrange(i + 1, i + 1) =~= Seq::<Seq<char>>::empty());
                assert(line_views(out@) =~= all.take(i + 1) + urls.map_values(
                    |u: Seq<char>| repository_entry(u),
                ) + all.subrange(i + 1, i + 1));
            }
            inserted = true;
        }
        i += 1;
    }
    proof {
        let at = run_end(all, 0, p);
        lemma_run_end(all, 0, p);
        if inserted {
            assert(all.subrange(at + 1, lines.len() as int) =~= all.skip(at + 1));
        } else {
            assert(all.take(lines.len() as int) =~= all);
        }
    }
    render_lines(&out)
}

/// Declares the repositories for plugins in the first block of
/// repositories of a settings file, and ends the file with a line feed.
pub fn apply_plugin_repositories(content: &str, repos: &Vec<String>) -> (out: String)
    ensures
        out@ == repositories_applied(content@, list_chars(repos@)),
{
    apply_repositories(content, repos)
}

/// What is written into the build file of the app.
pub struct AppGradle {
    pub namespace: Seq<char>,
    pub application_id: Seq<char>,
    pub output_file_name: Option<Seq<char>>,
    pub abi_filters: Option<Seq<Seq<char>>>,
    pub kotlin_incremental: Option<bool>,
}

/// Where the editor of the build file stands: the lines written so far,
/// the blocks it is in, and what it has added.
pub struct GradleScan {
    pub out: Seq<Seq<char>>,
    pub in_build_types: bool,
    pub in_default_config: bool,
    pub in_kotlin_options: bool,
    pub added_output_config: bool,
    pub added_abi_filters: bool,
    pub added_kotlin_incremental: bool,
}

/// The line as it is written: one that sets the namespace or the
/// application id is replaced by one that sets the configured value.
pub open spec fn replaced_line(line: Seq<char>, g: AppGradle) -> Seq<char> {
    if "namespace = "@.is_prefix_of(trimmed_start(line)) {
        "    namespace = \""@ + g.namespace + "\""@
    } else if "applicationId = "@.is_prefix_of(trimmed_start(line)) {
        "        applicationId = \""@ + g.application_id + "\""@
    } else {
        line
    }
}

/// The lines that switch incremental compilation of Kotlin off.
pub open spec fn kotlin_block() -> Seq<Seq<char>> {
    seq![
        ""@,
        "    // 禁用 Kotlin 增量编译以避免跨盘符路径问题"@,
        "    tasks.withType<org.jetbrains.kotlin.gradle.tasks.KotlinCompile> {"@,
        "        incremental = false"@,
        "    }"@,
    ]
}

/// The line that adds one ABI to the filters.
pub open spec fn abi_entry(abi: Seq<char>) -> Seq<char> {
    "            abiFilters.add(\""@ + abi + "\")"@
}

/// The lines that restrict the native libraries to the given ABIs.
pub open spec fn ndk_block(abis: Seq<Seq<char>>) -> Seq<Seq<char>> {
    seq!["        ndk {"@] + abis.map_values(|a: Seq<char>| abi_entry(a)) + seq!["        }"@]
}

/// The lines that name the output file of every variant.
pub open spec fn output_block(pattern: Seq<char>) -> Seq<Seq<char>> {
    seq![
        ""@,
        "    applicationVariants.all {"@,
        "        outputs.all {"@,
        "            val output = this as com.android.build.gradle.internal.api.BaseVariantOutputImpl"@,
        "            output.outputFileName = \""@ + pattern + "\""@,
        "        }"@,
        "    }"@,
    ]
}

/// `block` in front of the last of the lines.
pub open spec fn before_last(lines: Seq<Seq<char>>, block: Seq<Seq<char>>) -> Seq<Seq<char>> {
    if lines.len() == 0 {
        block
    } else {
        lines.drop_last() + block + seq![lines.last()]
    }
}

/// The state in which the editor starts.
pub open spec fn gradle_start() -> GradleScan {
    GradleScan {
        out: Seq::empty(),
        in_build_types: false,
        in_default_config: false,
        in_kotlin_options: false,
        added_output_config: false,
        added_abi_filters: false,
        added_kotlin_incremental: false,
    }
}

/// The state after the Kotlin options were looked at: behind the `}` that
/// closes them the lines of `kotlin_block` are added, once, where
/// incremental compilation is configured off.
pub open spec fn after_kotlin(s: GradleScan, line: Seq<char>, g: AppGradle) -> GradleScan {
    let inside = s.in_kotlin_options || "kotlinOptions {"@.is_prefix_of(trimmed(line));
    if inside && trimmed(line) == "}"@ && !s.added_kotlin_incremental {
        if g.kotlin_incremental == Some(false) {
            GradleScan {
                out: s.out + kotlin_block(),
                in_kotlin_options: false,
                added_kotlin_incremental: true,
                ..s
            }
        } else {
            GradleScan { in_kotlin_options: false, ..s }
        }
    } else {
        GradleScan { in_kotlin_options: inside, ..s }
    }
}

/// The state after the default configuration was looked at: in front of the
/// line written last when its `}` is read, the lines of `ndk_block` are
/// added, where ABIs are configured.
pub open spec fn after_default_config(s: GradleScan, line: Seq<char>, g: AppGradle) -> GradleScan {
    let inside = s.in_default_config || "defaultConfig {"@.is_prefix_of(trimmed(line));
    if inside && trimmed(line) == "}"@ && !s.added_abi_filters {
        GradleScan {
            out: match g.abi_filters {
                Some(abis) => if abis.len() > 0 {
                    before_last(s.out, ndk_block(abis))
                } else {
                    s.out
                },
                None => s.out,
            },
            in_default_config: false,
            added_abi_filters: true,
            ..s
        }
    } else {
        GradleScan { in_default_config: inside, ..s }
    }
}

/// The state after the build types were looked at: behind the `}` that
/// closes them the lines of `output_block` are added, once, where a name
/// for the output file is configured.
pub open spec fn after_build_types(s: GradleScan, line: Seq<char>, g: AppGradle) -> GradleScan {
    let inside = s.in_build_types || "buildTypes {"@.is_prefix_of(trimmed(line));
    if inside && trimmed(line) == "}"@ && !s.added_output_config {
        match g.output_file_name {
            Some(pattern) => GradleScan {
                out: s.out + output_block(pattern),
                in_build_types: false,
                added_output_config: true,
                ..s
            },
            None => GradleScan { in_build_types: false, ..s },
        }
    } else {
        GradleScan { in_build_types: inside, ..s }
    }
}

/// The state after one line was read: the line is written, replaced where
/// it sets the namespace or the application id, and then the Kotlin
/// options, the default configuration and the build types are looked at,
/// in this order.
pub open spec fn gradle_step(s: GradleScan, line: Seq<char>, g: AppGradle) -> GradleScan {
    let written = GradleScan { out: s.out.push(replaced_line(line, g)), ..s };
    after_build_types(after_default_config(after_kotlin(written, line, g), line, g), line, g)
}

/// The state after the lines were read.
pub open spec fn gradle_scan(lines: Seq<Seq<char>>, g: AppGradle) -> GradleScan
    decreases lines.len(),
{
    if lines.len() == 0 {
        gradle_start()
    } else {
        gradle_step(gradle_scan(lines.drop_last(), g), lines.last(), g)
    }
}

/// The build file of the app with the configured values written into it.
pub open spec fn app_gradle_applied(content: Seq<char>, g: AppGradle) -> Seq<char> {
    rendered(gradle_scan(split_lines(content), g).out)
}

fn push_literals(out: &mut Vec<Vec<char>>, block: &Vec<&'static str>)
    ensures
        line_views(final(out)@) == line_views(old(out)@) + block@.map_values(
            |l: &'static str| l@,
        ),
{
    let ghost before = line_views(out@);
    let ghost all = block@.map_values(|l: &'static str| l@);
    let mut k: usize = 0;
    proof {
        assert(before + all.take(0) =~= before);
    }
    while k < block.len()
        invariant
            k <= block.len(),
            all == block@.map_values(|l: &'static str| l@),
            line_views(out@) == before + all.take(k as int),
        decreases block.len() - k,
    {
        let ghost so_far = line_views(out@);
        out.push(chars_of(block[k]));
        proof {
            assert(line_views(out@) =~= so_far.push(all[k as int]));
            assert(all.take(k + 1) =~= all.take(k as int).push(all[k as int]));
            assert(so_far.push(all[k as int]) =~= before + all.take(k + 1));
        }
        k += 1;
    }
    proof {
        assert(all.take(block.len() as int) =~= all);
    }
}

fn insert_ndk_block(out: &mut Vec<Vec<char>>, abis: &Vec<String>)
    requires
        old(out).len() > 0,
    ensures
        line_views(final(out)@) == before_last(line_views(old(out)@), ndk_block(list_chars(abis@))),
{
    let ghost before = line_views(out@);
    let ghost names = list_chars(abis@);
    let ghost head = before.drop_last();
    let ghost last = before.last();
    let at = out.len() - 1;
    out.insert(at, chars_of("        ndk {"));
    proof {
        assert(line_views(out@) =~= head + seq!["        ndk {"@] + names.take(0).map_values(
            |a: Seq<char>| abi_entry(a),
        ) + seq![last]);
    }
    let mut k: usize = 0;
    while k < abis.len()
        invariant
            k <= abis.len(),
            names == list_chars(abis@),
            out.len() == before.len() + 1 + k,
            line_views(out@) == head + seq!["        ndk {"@] + names.take(k as int).map_values(
                |a: Seq<char>| abi_entry(a),
            ) + seq![last],
        decreases abis.len() - k,
    {
        let ghost so_far = line_views(out@);
        let entry = line_of_parts("            abiFilters.add(\"", abis[k].as_str(), "\")");
        let at = out.len() - 1;
        out.insert(at, entry);
        proof {
            assert(names.take(k + 1) =~= names.take(k as int).push(names[k as int]));
            assert(line_views(out@) =~= so_far.insert(at as int, abi_entry(names[k as int])));
            assert(so_far.insert(at as int, abi_entry(names[k as int])) =~= head + seq![
                "        ndk {"@,
            ] + names.take(k + 1).map_values(|a: Seq<char>| abi_entry(a)) + seq![last]);
        }
        k += 1;
    }
    let ghost so_far = line_views(out@);
    let at = out.len() - 1;
    out.insert(at, chars_of("        }"));
    proof {
        assert(names.take(abis.len() as int) =~= names);
        assert(line_views(out@) =~= so_far.insert(at as int, "        }"@));
        assert(so_far.insert(at as int, "        }"@) =~= head + (seq!["        ndk {"@]
            + names.map_values(|a: Seq<char>| abi_entry(a)) + seq!["        }"@]) + seq![last]);
    }
}

/// The editor of the build file of the app.
struct Editor {
    out: Vec<Vec<char>>,
    in_build_types: bool,
    in_default_config: bool,
    in_kotlin_options: bool,
    added_output_config: bool,
    added_abi_filters: bool,
    added_kotlin_incremental: bool,
}

impl View for Editor {
    type V = GradleScan;

    closed spec fn view(&self) -> GradleScan {
        GradleScan {
            out: line_views(self.out@),
            in_build_types: self.in_build_types,
            in_default_config: self.in_default_config,
            in_kotlin_options: self.in_kotlin_options,
            added_output_config: self.added_output_config,
            added_abi_filters: self.added_abi_filters,
            added_kotlin_incremental: self.added_kotlin_incremental,
        }
    }
}

/// What is written into the build file, as the executable code holds it.
struct Settings<'a> {
    namespace: &'a str,
    application_id: &'a str,
    output_file_name: Option<&'a str>,
    abi_filters: Option<&'a Vec<String>>,
    kotlin_incremental: Option<bool>,
}

impl<'a> View for Settings<'a> {
    type V = AppGradle;

    closed spec fn view(&self) -> AppGradle {
        AppGradle {
            namespace: self.namespace@,
            application_id: self.application_id@,
            output_file_name: match self.output_file_name {
                Some(p) => Some(p@),
                None => None,
            },
            abi_filters: match self.abi_filters {
                Some(list) => Some(list_chars(list@)),
                None => None,
            },
            kotlin_incremental: self.kotlin_incremental,
        }
    }
}

fn write_line(e: &mut Editor, line: &Vec<char>, g: &Settings)
    ensures
        final(e)@ == (GradleScan { out: old(e)@.out.push(replaced_line(line@, g@)), ..old(e)@ }),
{
    let ghost start = line_views(e.out@);
    if starts_with_after_space(line, "namespace = ") {
        e.out.push(line_of_parts("    namespace = \"", g.namespace, "\""));
    } else if starts_with_after_space(line, "applicationId = ") {
        e.out.push(line_of_parts("        applicationId = \"", g.application_id, "\""));
    } else {
        e.out.push(copy_line(line));
    }
    proof {
        assert(line_views(e.out@) =~= start.push(replaced_line(line@, g@)));
    }
}

fn look_at_kotlin(e: &mut Editor, trimmed_line: &Vec<char>, g: &Settings, Ghost(line): Ghost<
    Seq<char>,
>)
    requires
        trimmed_line@ == trimmed(line),
    ensures
        final(e)@ == after_kotlin(old(e)@, line, g@),
{
    if has_prefix(trimmed_line, "kotlinOptions {") {
        e.in_kotlin_options = true;
    }
    if e.in_kotlin_options && chars_equal(trimmed_line, "}") && !e.added_kotlin_incremental {
        e.in_kotlin_options = false;
        if let Some(false) = g.kotlin_incremental {
            let block = vec![
                "",
                "    // 禁用 Kotlin 增量编译以避免跨盘符路径问题",
                "    tasks.withType<org.jetbrains.kotlin.gradle.tasks.KotlinCompile> {",
                "        incremental = false",
                "    }",
            ];
            proof {
                assert(block@.map_values(|l: &'static str| l@) =~= kotlin_block());
            }
            push_literals(&mut e.out, &block);
            e.added_kotlin_incremental = true;
        }
    }
}

fn look_at_default_config(
    e: &mut Editor,
    trimmed_line: &Vec<char>,
    g: &Settings,
    Ghost(line): Ghost<Seq<char>>,
)
    requires
        trimmed_line@ == trimmed(line),
        old(e)@.out.len() > 0,
    ensures
        final(e)@ == after_default_config(old(e)@, line, g@),
        final(e)@.out.len() > 0,
{
    if has_prefix(trimmed_line, "defaultConfig {") {
        e.in_default_config = true;
    }
    if e.in_default_config && chars_equal(trimmed_line, "}") && !e.added_abi_filters {
        if let Some(abis) = g.abi_filters {
            if abis.len() > 0 {
                insert_ndk_block(&mut e.out, abis);
            }
        }
        e.in_default_config = false;
        e.added_abi_filters = true;
    }
}

fn look_at_build_types(
    e: &mut Editor,
    trimmed_line: &Vec<char>,
    g: &Settings,
    Ghost(line): Ghost<Seq<char>>,
)
    requires
        trimmed_line@ == trimmed(line),
    ensures
        final(e)@ == after_build_types(old(e)@, line, g@),
{
    if has_prefix(trimmed_line, "buildTypes {") {
        e.in_build_types = true;
    }
    if e.in_build_types && chars_equal(trimmed_line, "}") && !e.added_output_config {
        e.in_build_types = false;
        if let Some(pattern) = g.output_file_name {
            let ghost so_far = line_views(e.out@);
            let head = vec![
                "",
                "    applicationVariants.all {",
                "        outputs.all {",
                "            val output = this as com.android.build.gradle.internal.api.BaseVariantOutputImpl",
            ];
            push_literals(&mut e.out, &head);
            let ghost one = line_views(e.out@);
            let named = line_of_parts("            output.outputFileName = \"", pattern, "\"");
            let ghost named_view = named@;
            e.out.push(named);
            let ghost two = line_views(e.out@);
            let tail = vec!["        }", "    }"];
            push_literals(&mut e.out, &tail);
            proof {
                let h = head@.map_values(|l: &'static str| l@);
                let t = tail@.map_values(|l: &'static str| l@);
                assert(h.len() == 4 && t.len() == 2);
                assert(one == so_far + h);
                assert(two =~= one.push(named_view));
                assert(line_views(e.out@) == two + t);
                let block = output_block(pattern@);
                assert(block.len() == 7);
                assert(h + seq![named_view] + t =~= block);
                assert(two + t =~= so_far + (h + seq![named_view] + t));
            }
            e.added_output_config = true;
        }
    }
}

fn read_line(e: &mut Editor, line: &Vec<char>, g: &Settings)
    ensures
        final(e)@ == gradle_step(old(e)@, line@, g@),
{
    write_line(e, line, g);
    let t = trim_chars(line);
    look_at_kotlin(e, &t, g, Ghost(line@));
    look_at_default_config(e, &t, g, Ghost(line@));
    look_at_build_types(e, &t, g, Ghost(line@));
}

/// Writes the configured values into the build file of the app: the
/// namespace and the application id in place of the lines that set them,
/// the ABI filters at the end of the default configuration, the switch for
/// incremental compilation behind the Kotlin options, and the name of the
/// output file behind the build types. The file that comes back ends with a
/// line feed.
pub fn apply_app_gradle(
    content: &str,
    namespace: &str,
    application_id: &str,
    output_file_name: Option<&str>,
    abi_filters: Option<&Vec<String>>,
    kotlin_incremental: Option<bool>,
) -> (text: String)
    ensures
        text@ == app_gradle_applied(
            content@,
            AppGradle {
                namespace: namespace@,
                application_id: application_id@,
                output_file_name: match output_file_name {
                    Some(p) => Some(p@),
                    None => None,
                },
                abi_filters: match abi_filters {
                    Some(list) => Some(list_chars(list@)),
                    None => None,
                },
                kotlin_incremental,
            },
        ),
{
    let g = Settings { namespace, application_id, output_file_name, abi_filters, kotlin_incremental };
    let lines = lines_of_text(content);
    let ghost all = line_views(lines@);
    let mut e = Editor {
        out: Vec::new(),
        in_build_types: false,
        in_default_config: false,
        in_kotlin_options: false,
        added_output_config: false,
        added_abi_filters: false,
        added_kotlin_incremental: false,
    };
    let mut i: usize = 0;
    proof {
        assert(all.take(0) =~= Seq::<Seq<char>>::empty());
        assert(line_views(e.out@) =~= Seq::<Seq<char>>::empty());
    }
    while i < lines.len()
        invariant
            i <= lines.len(),
            all == line_views(lines@),
            gradle_scan(all.take(i as int), g@) == e@,
        decreases lines.len() - i,
    {
        proof {
            assert(all.take(i + 1).drop_last() =~= all.take(i as int));
            assert(all.take(i + 1).last() == all[i as int]);
        }
        read_line(&mut e, &lines[i], &g);
        i += 1;
    }
    proof {
        assert(all.take(lines.len() as int) =~= all);
    }
    render_lines(&e.out)
}

} // verus!
