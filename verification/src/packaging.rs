//! The release packaging: the names of the artifacts, the files written
//! into the bundles, and the plan of steps that builds an artifact for the
//! running operating system.

use vstd::prelude::*;
use crate::numbers::{decimal_chars, decimal_text};
use crate::paths::{TargetFamily, join, join_on, join_path, join_path_on};
use crate::windows_paths::{windows_join, windows_join_path};
use crate::text::{push_char, text_equals, to_owned_text};

verus! {

/// The desktop entry inside the AppImage.
pub const LINUX_DESKTOP_ENTRY: &'static str = "[Desktop Entry]\nType=Application\nName=Cursor Optimizer\nComment=Reclaim gigabytes from Cursor\nExec=cursor-optimizer\nIcon=cursor-optimizer\nCategories=Utility;\nTerminal=false\n";

/// The launcher script inside the AppImage.
pub const LINUX_APP_RUN: &'static str = "#!/bin/sh\nHERE=\"$(dirname \"$(readlink -f \"$0\")\")\"\nexec \"${HERE}/usr/bin/cursor-optimizer\" \"$@\"\n";

/// The label of an architecture in artifact names.
pub open spec fn spec_architecture_label(arch: Seq<char>) -> Seq<char> {
    if arch == "x86_64"@ {
        "x64"@
    } else if arch == "aarch64"@ {
        "arm64"@
    } else {
        arch
    }
}

/// The label of an architecture in artifact names.
pub fn architecture_label(arch: &str) -> (label: String)
    ensures
        label@ == spec_architecture_label(arch@),
{
    if text_equals(arch, "x86_64") {
        to_owned_text("x64")
    } else if text_equals(arch, "aarch64") {
        to_owned_text("arm64")
    } else {
        to_owned_text(arch)
    }
}

/// `<name>-<version>-<os>-<arch label>`.
pub open spec fn spec_stem(name: Seq<char>, version: Seq<char>, os: Seq<char>, arch: Seq<char>) -> Seq<char> {
    name + seq!['-'] + version + seq!['-'] + os + seq!['-'] + spec_architecture_label(arch)
}

fn stem(name: &str, version: &str, os: &str, arch: &str) -> (text: String)
    ensures
        text@ == spec_stem(name@, version@, os@, arch@),
{
    let mut text = to_owned_text(name);
    push_char(&mut text, '-');
    text.append(version);
    push_char(&mut text, '-');
    text.append(os);
    push_char(&mut text, '-');
    text.append(architecture_label(arch).as_str());
    text
}

/// The name of the application's artifact, without its extension.
pub fn artifact_stem(version: &str, os: &str, arch: &str) -> (text: String)
    ensures
        text@ == spec_stem("cursor-optimizer"@, version@, os@, arch@),
{
    stem("cursor-optimizer", version, os, arch)
}

/// The name of the installer's artifact, without its extension.
pub fn installer_stem(version: &str, os: &str, arch: &str) -> (text: String)
    ensures
        text@ == spec_stem("cursor-optimizer-installer"@, version@, os@, arch@),
{
    stem("cursor-optimizer-installer", version, os, arch)
}

pub open spec fn spec_appdmg_configuration(bundle: Seq<char>, background: Seq<char>) -> Seq<char> {
    "{\n  \"title\": \"Cursor Optimizer\",\n  \"background\": \""@ + background
        + "\",\n  \"icon-size\": 128,\n  \"window\": { \"size\": { \"width\": 600, \"height\": 400 } },\n  \"contents\": [\n    { \"x\": 150, \"y\": 210, \"type\": \"file\", \"path\": \""@
        + bundle
        + "\" },\n    { \"x\": 450, \"y\": 210, \"type\": \"link\", \"path\": \"/Applications\" }\n  ]\n}\n"@
}

/// The layout of the disk image: the bundle beside a link to Applications.
pub fn appdmg_configuration(bundle: &str, background: &str) -> (text: String)
    ensures
        text@ == spec_appdmg_configuration(bundle@, background@),
{
    let mut text = to_owned_text("{\n  \"title\": \"Cursor Optimizer\",\n  \"background\": \"");
    text.append(background);
    text.append(
        "\",\n  \"icon-size\": 128,\n  \"window\": { \"size\": { \"width\": 600, \"height\": 400 } },\n  \"contents\": [\n    { \"x\": 150, \"y\": 210, \"type\": \"file\", \"path\": \"",
    );
    text.append(bundle);
    text.append("\" },\n    { \"x\": 450, \"y\": 210, \"type\": \"link\", \"path\": \"/Applications\" }\n  ]\n}\n");
    text
}

pub open spec fn spec_macos_information_property_list(version: Seq<char>) -> Seq<char> {
    "<?xml version=\"1.0\" encoding=\"UTF-8\"?>\n<!DOCTYPE plist PUBLIC \"-//Apple//DTD PLIST 1.0//EN\" \"http://www.apple.com/DTDs/PropertyList-1.0.dtd\">\n<plist version=\"1.0\">\n<dict>\n  <key>CFBundleName</key><string>Cursor Optimizer</string>\n  <key>CFBundleDisplayName</key><string>Cursor Optimizer</string>\n  <key>CFBundleExecutable</key><string>cursor-optimizer</string>\n  <key>CFBundleIdentifier</key><string>kr.co.vendit.cursor-optimizer</string>\n  <key>CFBundleVersion</key><string>"@
        + version + "</string>\n  <key>CFBundleShortVersionString</key><string>"@ + version
        + "</string>\n  <key>CFBundleIconFile</key><string>icon</string>\n  <key>CFBundlePackageType</key><string>APPL</string>\n  <key>NSHighResolutionCapable</key><true/>\n</dict>\n</plist>\n"@
}

/// The `Info.plist` of the packaged bundle.
pub fn macos_information_property_list(version: &str) -> (text: String)
    ensures
        text@ == spec_macos_information_property_list(version@),
{
    let mut text = to_owned_text(
        "<?xml version=\"1.0\" encoding=\"UTF-8\"?>\n<!DOCTYPE plist PUBLIC \"-//Apple//DTD PLIST 1.0//EN\" \"http://www.apple.com/DTDs/PropertyList-1.0.dtd\">\n<plist version=\"1.0\">\n<dict>\n  <key>CFBundleName</key><string>Cursor Optimizer</string>\n  <key>CFBundleDisplayName</key><string>Cursor Optimizer</string>\n  <key>CFBundleExecutable</key><string>cursor-optimizer</string>\n  <key>CFBundleIdentifier</key><string>kr.co.vendit.cursor-optimizer</string>\n  <key>CFBundleVersion</key><string>",
    );
    text.append(version);
    text.append("</string>\n  <key>CFBundleShortVersionString</key><string>");
    text.append(version);
    text.append(
        "</string>\n  <key>CFBundleIconFile</key><string>icon</string>\n  <key>CFBundlePackageType</key><string>APPL</string>\n  <key>NSHighResolutionCapable</key><true/>\n</dict>\n</plist>\n",
    );
    text
}

/// One step of packaging.
pub enum PackageStep {
    /// Print a line.
    Report(String),
    /// Run a program in the workspace with extra environment variables;
    /// fails when it cannot start or exits with a failure status.
    Run(String, Vec<String>, Vec<(String, String)>),
    /// Fail with the message unless the path is a file.
    RequireFile(String, String),
    /// Create a folder and its parents; fails as "could not <what>: ...".
    CreateDirectory(String, String),
    /// Remove a folder if it exists, then create it anew.
    ResetDirectory(String),
    /// Copy a file.
    CopyFile(String, String),
    /// Write a file.
    WriteFile(String, String),
    /// Remove a file, ignoring failure.
    RemoveFile(String),
    /// Fail with the message.
    Fail(String),
}

pub enum StepView {
    Report(Seq<char>),
    Run(Seq<char>, Seq<Seq<char>>, Seq<(Seq<char>, Seq<char>)>),
    RequireFile(Seq<char>, Seq<char>),
    CreateDirectory(Seq<char>, Seq<char>),
    ResetDirectory(Seq<char>),
    CopyFile(Seq<char>, Seq<char>),
    WriteFile(Seq<char>, Seq<char>),
    RemoveFile(Seq<char>),
    Fail(Seq<char>),
}

pub open spec fn texts_view(texts: Seq<String>) -> Seq<Seq<char>> {
    texts.map_values(|t: String| t@)
}

pub open spec fn pairs_view(pairs: Seq<(String, String)>) -> Seq<(Seq<char>, Seq<char>)> {
    pairs.map_values(|p: (String, String)| (p.0@, p.1@))
}

pub open spec fn step_view(step: PackageStep) -> StepView {
    match step {
        PackageStep::Report(t) => StepView::Report(t@),
        PackageStep::Run(p, a, e) => StepView::Run(p@, texts_view(a@), pairs_view(e@)),
        PackageStep::RequireFile(p, m) => StepView::RequireFile(p@, m@),
        PackageStep::CreateDirectory(p, w) => StepView::CreateDirectory(p@, w@),
        PackageStep::ResetDirectory(p) => StepView::ResetDirectory(p@),
        PackageStep::CopyFile(s, d) => StepView::CopyFile(s@, d@),
        PackageStep::WriteFile(p, c) => StepView::WriteFile(p@, c@),
        PackageStep::RemoveFile(p) => StepView::RemoveFile(p@),
        PackageStep::Fail(m) => StepView::Fail(m@),
    }
}

pub open spec fn steps_view(steps: Seq<PackageStep>) -> Seq<StepView> {
    steps.map_values(|s: PackageStep| step_view(s))
}

fn push_step(steps: &mut Vec<PackageStep>, step: PackageStep)
    ensures
        steps_view(final(steps)@) == steps_view(old(steps)@).push(step_view(step)),
{
    let ghost view = step_view(step);
    steps.push(step);
    assert(steps_view(steps@) =~= steps_view(old(steps)@).push(view));
}

fn texts(items: Vec<&str>) -> (owned: Vec<String>)
    ensures
        owned@.len() == items@.len(),
        forall|k: int| 0 <= k < items@.len() ==> #[trigger] owned@[k]@ == items@[k]@,
{
    let mut owned: Vec<String> = Vec::new();
    let mut i: usize = 0;
    while i < items.len()
        invariant
            i <= items@.len(),
            owned@.len() == i,
            forall|k: int| 0 <= k < i ==> #[trigger] owned@[k]@ == items@[k]@,
        decreases items@.len() - i,
    {
        owned.push(to_owned_text(items[i]));
        i += 1;
    }
    owned
}

/// A program run with no extra environment.
pub open spec fn run_view(program: Seq<char>, arguments: Seq<Seq<char>>) -> StepView {
    StepView::Run(program, arguments, Seq::empty())
}

fn run_step(program: &str, arguments: Vec<String>) -> (step: PackageStep)
    ensures
        step_view(step) == run_view(program@, texts_view(arguments@)),
{
    let environment: Vec<(String, String)> = Vec::new();
    assert(pairs_view(environment@) =~= Seq::<(Seq<char>, Seq<char>)>::empty());
    PackageStep::Run(to_owned_text(program), arguments, environment)
}

/// `npm` with the given arguments; through `cmd /C` on Windows.
pub open spec fn npm_view(windows: bool, arguments: Seq<Seq<char>>) -> StepView {
    if windows {
        run_view("cmd"@, seq!["/C"@, "npm"@] + arguments)
    } else {
        run_view("npm"@, arguments)
    }
}

fn npm_step(windows: bool, arguments: Vec<String>) -> (step: PackageStep)
    ensures
        step_view(step) == npm_view(windows, texts_view(arguments@)),
{
    if windows {
        let mut combined: Vec<String> = vec![to_owned_text("/C"), to_owned_text("npm")];
        let mut i: usize = 0;
        while i < arguments.len()
            invariant
                i <= arguments@.len(),
                combined@.len() == 2 + i,
                combined@[0]@ == "/C"@,
                combined@[1]@ == "npm"@,
                forall|k: int| 0 <= k < i ==> #[trigger] combined@[2 + k]@ == arguments@[k]@,
            decreases arguments@.len() - i,
        {
            combined.push(to_owned_text(arguments[i].as_str()));
            i += 1;
        }
        assert(texts_view(combined@) =~= seq!["/C"@, "npm"@] + texts_view(arguments@)) by {
            assert forall|k: int| 0 <= k < combined@.len() implies #[trigger] texts_view(combined@)[k] == (
            seq!["/C"@, "npm"@] + texts_view(arguments@))[k] by {
                if k >= 2 {
                    assert(combined@[2 + (k - 2)]@ == arguments@[k - 2]@);
                }
            }
        }
        run_step("cmd", combined)
    } else {
        run_step("npm", arguments)
    }
}

/// The operating systems that have an artifact.
#[derive(Clone, Copy, PartialEq, Eq, Debug, Structural)]
pub enum PackageTarget {
    Windows,
    MacOs,
    Linux,
}

pub open spec fn spec_package_target(os: Seq<char>) -> Result<PackageTarget, Seq<char>> {
    if os == "windows"@ {
        Ok(PackageTarget::Windows)
    } else if os == "macos"@ {
        Ok(PackageTarget::MacOs)
    } else if os == "linux"@ {
        Ok(PackageTarget::Linux)
    } else {
        Err("unsupported operating system: "@ + os)
    }
}

/// The artifact the operating system gets, or why it gets none.
pub fn package_target(os: &str) -> (target: Result<PackageTarget, String>)
    ensures
        match spec_package_target(os@) {
            Ok(t) => target == Ok::<PackageTarget, String>(t),
            Err(m) => target matches Err(found) && found@ == m,
        },
{
    if text_equals(os, "windows") {
        Ok(PackageTarget::Windows)
    } else if text_equals(os, "macos") {
        Ok(PackageTarget::MacOs)
    } else if text_equals(os, "linux") {
        Ok(PackageTarget::Linux)
    } else {
        let mut message = to_owned_text("unsupported operating system: ");
        message.append(os);
        Err(message)
    }
}

/// What a workspace is made of: its root, the release folder, the
/// artifacts folder.
/// The family of the system that packages: Windows when it packages for
/// Windows, Unix otherwise (the packager builds for the system it runs on).
pub open spec fn packaging_family(windows: bool) -> TargetFamily {
    if windows {
        TargetFamily::Windows
    } else {
        TargetFamily::Unix
    }
}

pub open spec fn release_directory(root: Seq<char>, windows: bool) -> Seq<char> {
    let family = packaging_family(windows);
    join_path_on(family, join_path_on(family, root, "distributions"@), "release"@)
}

pub open spec fn artifacts_directory(root: Seq<char>, windows: bool) -> Seq<char> {
    join_path_on(packaging_family(windows), root, "artifacts"@)
}

pub open spec fn bundle_root(root: Seq<char>) -> Seq<char> {
    join_path(join_path(root, "distributions"@), "bundle"@)
}

pub open spec fn executable_suffix(windows: bool) -> Seq<char> {
    if windows {
        ".exe"@
    } else {
        ""@
    }
}

pub open spec fn application_binary(root: Seq<char>, windows: bool) -> Seq<char> {
    join_path_on(
        packaging_family(windows),
        release_directory(root, windows),
        "cursor-optimizer"@ + executable_suffix(windows),
    )
}

/// The steps that every artifact starts with: the web dependencies when
/// missing, the web bundle, the release binary, and the artifacts folder.
pub open spec fn common_steps(root: Seq<char>, windows: bool, node_modules_present: bool) -> Seq<StepView> {
    let dependencies = if node_modules_present {
        Seq::empty()
    } else {
        seq![StepView::Report("installing web dependencies..."@), npm_view(windows, seq!["ci"@])]
    };
    dependencies + seq![
        StepView::Report("building application web bundle..."@),
        npm_view(windows, seq!["run"@, "build"@, "--workspace"@, "cursor-optimizer-web"@]),
        StepView::Report("building application binary..."@),
        run_view("cargo"@, seq!["build"@, "--release"@, "-p"@, "cursor-optimizer"@]),
        StepView::RequireFile(
            application_binary(root, windows),
            "expected application binary not found at "@ + application_binary(root, windows),
        ),
        StepView::CreateDirectory(artifacts_directory(root, windows), "create the artifacts directory"@),
    ]
}

/// The steps that build the Windows installer around the application.
pub open spec fn windows_steps(root: Seq<char>, version: Seq<char>, arch: Seq<char>) -> Seq<StepView> {
    let installer = windows_join_path(release_directory(root, true), "cursor-optimizer-installer.exe"@);
    let destination = windows_join_path(
        artifacts_directory(root, true),
        spec_stem("cursor-optimizer-installer"@, version, "windows"@, arch) + ".exe"@,
    );
    seq![
        StepView::Report("building installer web bundle..."@),
        npm_view(true, seq!["run"@, "build"@, "--workspace"@, "cursor-optimizer-installer-web"@]),
        StepView::Report("building installer binary..."@),
        StepView::Run(
            "cargo"@,
            seq!["build"@, "--release"@, "-p"@, "cursor-optimizer-installer"@],
            seq![("CURSOR_OPTIMIZER_BINARY"@, application_binary(root, true))],
        ),
        StepView::RequireFile(installer, "expected installer binary not found at "@ + installer),
        StepView::CopyFile(installer, destination),
        StepView::Report("installer written to "@ + destination),
    ]
}

pub open spec fn icon_view(iconset: Seq<char>, source: Seq<char>, size: nat, doubled: bool) -> StepView {
    let name = "icon_"@ + decimal_chars(size) + seq!['x'] + decimal_chars(size) + (if doubled {
        "@2x"@
    } else {
        ""@
    }) + ".png"@;
    let pixels = decimal_chars(if doubled {
        size * 2
    } else {
        size
    });
    run_view("sips"@, seq!["-z"@, pixels, pixels, source, "--out"@, join_path(iconset, name)])
}

/// The icon in each size macOS asks for, and again at double density.
pub open spec fn icon_steps(iconset: Seq<char>, source: Seq<char>) -> Seq<StepView> {
    seq![
        icon_view(iconset, source, 16, false),
        icon_view(iconset, source, 16, true),
        icon_view(iconset, source, 32, false),
        icon_view(iconset, source, 32, true),
        icon_view(iconset, source, 128, false),
        icon_view(iconset, source, 128, true),
        icon_view(iconset, source, 256, false),
        icon_view(iconset, source, 256, true),
        icon_view(iconset, source, 512, false),
        icon_view(iconset, source, 512, true),
    ]
}

/// The application bundle of the disk image: the binary, icons and
/// metadata, signed ad hoc.
pub open spec fn macos_bundle_steps(root: Seq<char>, application: Seq<char>, version: Seq<char>) -> Seq<StepView> {
    let bundles = bundle_root(root);
    let bundle = join_path(bundles, "Cursor Optimizer.app"@);
    let contents = join_path(bundle, "Contents"@);
    let binaries = join_path(contents, "MacOS"@);
    let resources = join_path(contents, "Resources"@);
    let icon_source = join_path(join_path(root, "assets"@), "icon.png"@);
    let iconset = join_path(bundles, "icon.iconset"@);
    seq![
        StepView::ResetDirectory(bundles),
        StepView::CreateDirectory(binaries, "create the application bundle"@),
        StepView::CreateDirectory(resources, "create the application bundle"@),
        StepView::CopyFile(application, join_path(binaries, "cursor-optimizer"@)),
        StepView::CreateDirectory(iconset, "create the icon set"@),
    ] + icon_steps(iconset, icon_source) + seq![
        run_view("iconutil"@, seq!["-c"@, "icns"@, iconset, "-o"@, join_path(resources, "icon.icns"@)]),
        StepView::WriteFile(join_path(contents, "Info.plist"@), spec_macos_information_property_list(version)),
        run_view("codesign"@, seq!["--force"@, "--deep"@, "--sign"@, "-"@, bundle]),
    ]
}

/// The disk image around the bundle, laid out by appdmg.
pub open spec fn macos_image_steps(root: Seq<char>, version: Seq<char>, arch: Seq<char>) -> Seq<StepView> {
    let bundles = bundle_root(root);
    let bundle = join_path(bundles, "Cursor Optimizer.app"@);
    let background = join_path(bundles, "background.png"@);
    let background_source = join_path(join_path(root, "assets"@), "dmg-background.png"@);
    let configuration = join_path(bundles, "appdmg.json"@);
    let destination = join_path(
        artifacts_directory(root, false),
        spec_stem("cursor-optimizer"@, version, "macos"@, arch) + ".dmg"@,
    );
    seq![
        run_view("sips"@, seq!["-z"@, "400"@, "600"@, background_source, "--out"@, background]),
        StepView::WriteFile(configuration, spec_appdmg_configuration(bundle, background)),
        StepView::RemoveFile(destination),
        run_view("npx"@, seq!["--yes"@, "appdmg"@, configuration, destination]),
        StepView::Report("disk image written to "@ + destination),
    ]
}

/// The steps that build the macOS disk image.
pub open spec fn macos_steps(root: Seq<char>, application: Seq<char>, version: Seq<char>, arch: Seq<char>) -> Seq<StepView> {
    macos_bundle_steps(root, application, version) + macos_image_steps(root, version, arch)
}

/// The architecture appimagetool is fetched for.
pub open spec fn appimage_architecture(arch: Seq<char>) -> Seq<char> {
    if arch == "aarch64"@ {
        "aarch64"@
    } else {
        "x86_64"@
    }
}

/// The steps that build the Linux AppImage: the AppDir with the binary,
/// icon, desktop entry and launcher, then appimagetool.
pub open spec fn linux_steps(root: Seq<char>, application: Seq<char>, version: Seq<char>, arch: Seq<char>) -> Seq<StepView> {
    let bundles = bundle_root(root);
    let application_directory = join_path(bundles, "AppDir"@);
    let binaries = join_path(join_path(application_directory, "usr"@), "bin"@);
    let launcher = join_path(application_directory, "AppRun"@);
    let architecture = appimage_architecture(arch);
    let tool = join_path(bundles, "appimagetool"@);
    let url = "https://github.com/AppImage/appimagetool/releases/download/continuous/appimagetool-"@
        + architecture + ".AppImage"@;
    let destination = join_path(
        artifacts_directory(root, false),
        spec_stem("cursor-optimizer"@, version, "linux"@, arch) + ".AppImage"@,
    );
    seq![
        StepView::ResetDirectory(bundles),
        StepView::CreateDirectory(binaries, "create the AppDir"@),
        StepView::CopyFile(application, join_path(binaries, "cursor-optimizer"@)),
        StepView::CopyFile(
            join_path(join_path(root, "assets"@), "icon.png"@),
            join_path(application_directory, "cursor-optimizer.png"@),
        ),
        StepView::WriteFile(join_path(application_directory, "cursor-optimizer.desktop"@), LINUX_DESKTOP_ENTRY@),
        StepView::WriteFile(launcher, LINUX_APP_RUN@),
        run_view("chmod"@, seq!["+x"@, launcher]),
        run_view("curl"@, seq!["-fL"@, "-o"@, tool, url]),
        run_view("chmod"@, seq!["+x"@, tool]),
        StepView::RemoveFile(destination),
        StepView::Run(
            tool,
            seq!["--appimage-extract-and-run"@, application_directory, destination],
            seq![("ARCH"@, architecture)],
        ),
        StepView::Report("AppImage written to "@ + destination),
    ]
}

/// Every step of packaging, in order, for the operating system `os` (as
/// `std::env::consts::OS` names it) and architecture `arch`.
pub open spec fn spec_packaging_plan(
    root: Seq<char>,
    os: Seq<char>,
    arch: Seq<char>,
    version: Seq<char>,
    node_modules_present: bool,
) -> Seq<StepView> {
    let windows = os == "windows"@;
    common_steps(root, windows, node_modules_present) + match spec_package_target(os) {
        Ok(PackageTarget::Windows) => windows_steps(root, version, arch),
        Ok(PackageTarget::MacOs) => macos_steps(root, application_binary(root, windows), version, arch),
        Ok(PackageTarget::Linux) => linux_steps(root, application_binary(root, windows), version, arch),
        Err(message) => seq![StepView::Fail(message)],
    }
}

fn report(steps: &mut Vec<PackageStep>, line: String)
    ensures
        steps_view(final(steps)@) == steps_view(old(steps)@).push(StepView::Report(line@)),
{
    push_step(steps, PackageStep::Report(line));
}

fn prefixed(prefix: &str, rest: &str) -> (text: String)
    ensures
        text@ == prefix@ + rest@,
{
    let mut text = to_owned_text(prefix);
    text.append(rest);
    text
}

fn add_icon(steps: &mut Vec<PackageStep>, iconset: &str, source: &str, size: u32, doubled: bool)
    requires
        size <= 512,
    ensures
        steps_view(final(steps)@) == steps_view(old(steps)@).push(icon_view(iconset@, source@, size as nat, doubled)),
{
    let digits = decimal_text(size as u128);
    let mut name = to_owned_text("icon_");
    name.append(digits.as_str());
    push_char(&mut name, 'x');
    name.append(digits.as_str());
    if doubled {
        name.append("@2x");
    }
    name.append(".png");
    let pixels = decimal_text(if doubled {
        (size * 2) as u128
    } else {
        size as u128
    });
    let destination = join(iconset, name.as_str());
    let arguments = vec![
        to_owned_text("-z"),
        to_owned_text(pixels.as_str()),
        pixels,
        to_owned_text(source),
        to_owned_text("--out"),
        destination,
    ];
    let step = run_step("sips", arguments);
    proof {
        reveal_strlit("");
        let expected = icon_view(iconset@, source@, size as nat, doubled);
        assert(name@ =~= "icon_"@ + decimal_chars(size as nat) + seq!['x'] + decimal_chars(size as nat) + (if doubled {
            "@2x"@
        } else {
            ""@
        }) + ".png"@);
        assert(step_view(step)->Run_1 =~= expected->Run_1);
    }
    push_step(steps, step);
}

fn windows_plan(steps: &mut Vec<PackageStep>, root: &str, version: &str, arch: &str)
    ensures
        steps_view(final(steps)@) == steps_view(old(steps)@) + windows_steps(root@, version@, arch@),
{
    let release = windows_join(windows_join(root, "distributions").as_str(), "release");
    let artifacts = windows_join(root, "artifacts");
    let application = windows_join(release.as_str(), "cursor-optimizer.exe");
    let installer = windows_join(release.as_str(), "cursor-optimizer-installer.exe");
    let mut artifact_name = installer_stem(version, "windows", arch);
    artifact_name.append(".exe");
    let destination = windows_join(artifacts.as_str(), artifact_name.as_str());
    report(steps, to_owned_text("building installer web bundle..."));
    let web_arguments = texts(vec!["run", "build", "--workspace", "cursor-optimizer-installer-web"]);
    assert(texts_view(web_arguments@) =~= seq!["run"@, "build"@, "--workspace"@, "cursor-optimizer-installer-web"@]);
    push_step(steps, npm_step(true, web_arguments));
    report(steps, to_owned_text("building installer binary..."));
    let environment = vec![(to_owned_text("CURSOR_OPTIMIZER_BINARY"), application)];
    let arguments = texts(vec!["build", "--release", "-p", "cursor-optimizer-installer"]);
    assert(texts_view(arguments@) =~= seq!["build"@, "--release"@, "-p"@, "cursor-optimizer-installer"@]);
    proof {
        reveal_strlit(".exe");
        reveal_strlit("cursor-optimizer");
        reveal_strlit("cursor-optimizer.exe");
        assert("cursor-optimizer.exe"@ =~= "cursor-optimizer"@ + ".exe"@);
    }
    let build = PackageStep::Run(to_owned_text("cargo"), arguments, environment);
    assert(step_view(build)->Run_2 =~= seq![("CURSOR_OPTIMIZER_BINARY"@, application_binary(root@, true))]);
    push_step(steps, build);
    let missing = prefixed("expected installer binary not found at ", installer.as_str());
    push_step(steps, PackageStep::RequireFile(to_owned_text(installer.as_str()), missing));
    push_step(steps, PackageStep::CopyFile(installer, to_owned_text(destination.as_str())));
    report(steps, prefixed("installer written to ", destination.as_str()));
    proof {
        let expected = windows_steps(root@, version@, arch@);
        let added = steps_view(steps@).skip(steps_view(old(steps)@).len() as int);
        assert(added =~= expected);
        assert(steps_view(steps@) =~= steps_view(old(steps)@) + added);
    }
}

fn macos_bundle_plan(steps: &mut Vec<PackageStep>, root: &str, application: &str, version: &str)
    ensures
        steps_view(final(steps)@) == steps_view(old(steps)@) + macos_bundle_steps(root@, application@, version@),
{
    let bundles = join(join(root, "distributions").as_str(), "bundle");
    let bundle = join(bundles.as_str(), "Cursor Optimizer.app");
    let contents = join(bundle.as_str(), "Contents");
    let binaries = join(contents.as_str(), "MacOS");
    let resources = join(contents.as_str(), "Resources");
    let icon_source = join(join(root, "assets").as_str(), "icon.png");
    let iconset = join(bundles.as_str(), "icon.iconset");
    push_step(steps, PackageStep::ResetDirectory(to_owned_text(bundles.as_str())));
    push_step(steps, PackageStep::CreateDirectory(to_owned_text(binaries.as_str()), to_owned_text("create the application bundle")));
    push_step(steps, PackageStep::CreateDirectory(to_owned_text(resources.as_str()), to_owned_text("create the application bundle")));
    push_step(steps, PackageStep::CopyFile(to_owned_text(application), join(binaries.as_str(), "cursor-optimizer")));
    push_step(steps, PackageStep::CreateDirectory(to_owned_text(iconset.as_str()), to_owned_text("create the icon set")));
    let ghost before_icons = steps_view(steps@);
    add_icon(steps, iconset.as_str(), icon_source.as_str(), 16, false);
    add_icon(steps, iconset.as_str(), icon_source.as_str(), 16, true);
    add_icon(steps, iconset.as_str(), icon_source.as_str(), 32, false);
    add_icon(steps, iconset.as_str(), icon_source.as_str(), 32, true);
    add_icon(steps, iconset.as_str(), icon_source.as_str(), 128, false);
    add_icon(steps, iconset.as_str(), icon_source.as_str(), 128, true);
    add_icon(steps, iconset.as_str(), icon_source.as_str(), 256, false);
    add_icon(steps, iconset.as_str(), icon_source.as_str(), 256, true);
    add_icon(steps, iconset.as_str(), icon_source.as_str(), 512, false);
    add_icon(steps, iconset.as_str(), icon_source.as_str(), 512, true);
    assert(steps_view(steps@) =~= before_icons + icon_steps(iconset@, icon_source@));
    let iconutil_arguments = vec![
        to_owned_text("-c"),
        to_owned_text("icns"),
        to_owned_text(iconset.as_str()),
        to_owned_text("-o"),
        join(resources.as_str(), "icon.icns"),
    ];
    let iconutil = run_step("iconutil", iconutil_arguments);
    assert(step_view(iconutil)->Run_1 =~= seq!["-c"@, "icns"@, iconset@, "-o"@, join_path(resources@, "icon.icns"@)]);
    push_step(steps, iconutil);
    push_step(steps, PackageStep::WriteFile(join(contents.as_str(), "Info.plist"), macos_information_property_list(version)));
    let codesign_arguments = vec![
        to_owned_text("--force"),
        to_owned_text("--deep"),
        to_owned_text("--sign"),
        to_owned_text("-"),
        to_owned_text(bundle.as_str()),
    ];
    let codesign = run_step("codesign", codesign_arguments);
    assert(step_view(codesign)->Run_1 =~= seq!["--force"@, "--deep"@, "--sign"@, "-"@, bundle@]);
    push_step(steps, codesign);
    proof {
        let expected = macos_bundle_steps(root@, application@, version@);
        let added = steps_view(steps@).skip(steps_view(old(steps)@).len() as int);
        assert(added =~= expected);
        assert(steps_view(steps@) =~= steps_view(old(steps)@) + added);
    }
}

fn macos_image_plan(steps: &mut Vec<PackageStep>, root: &str, version: &str, arch: &str)
    ensures
        steps_view(final(steps)@) == steps_view(old(steps)@) + macos_image_steps(root@, version@, arch@),
{
    let bundles = join(join(root, "distributions").as_str(), "bundle");
    let bundle = join(bundles.as_str(), "Cursor Optimizer.app");
    let background = join(bundles.as_str(), "background.png");
    let background_source = join(join(root, "assets").as_str(), "dmg-background.png");
    let configuration = join(bundles.as_str(), "appdmg.json");
    let mut artifact_name = artifact_stem(version, "macos", arch);
    artifact_name.append(".dmg");
    let destination = join(join(root, "artifacts").as_str(), artifact_name.as_str());
    let sips_arguments = vec![
        to_owned_text("-z"),
        to_owned_text("400"),
        to_owned_text("600"),
        background_source,
        to_owned_text("--out"),
        to_owned_text(background.as_str()),
    ];
    let resize = run_step("sips", sips_arguments);
    let ghost resize_view = step_view(resize);
    push_step(steps, resize);
    push_step(steps, PackageStep::WriteFile(to_owned_text(configuration.as_str()), appdmg_configuration(bundle.as_str(), background.as_str())));
    push_step(steps, PackageStep::RemoveFile(to_owned_text(destination.as_str())));
    let appdmg_arguments = vec![
        to_owned_text("--yes"),
        to_owned_text("appdmg"),
        configuration,
        to_owned_text(destination.as_str()),
    ];
    let appdmg = run_step("npx", appdmg_arguments);
    let ghost appdmg_view = step_view(appdmg);
    push_step(steps, appdmg);
    report(steps, prefixed("disk image written to ", destination.as_str()));
    proof {
        let expected = macos_image_steps(root@, version@, arch@);
        assert(resize_view->Run_1 =~= expected[0]->Run_1);
        assert(appdmg_view->Run_1 =~= expected[3]->Run_1);
        let added = steps_view(steps@).skip(steps_view(old(steps)@).len() as int);
        assert(added =~= expected);
        assert(steps_view(steps@) =~= steps_view(old(steps)@) + added);
    }
}

fn macos_plan(steps: &mut Vec<PackageStep>, root: &str, application: &str, version: &str, arch: &str)
    ensures
        steps_view(final(steps)@) == steps_view(old(steps)@) + macos_steps(root@, application@, version@, arch@),
{
    macos_bundle_plan(steps, root, application, version);
    macos_image_plan(steps, root, version, arch);
    assert(steps_view(steps@) =~= steps_view(old(steps)@) + macos_steps(root@, application@, version@, arch@));
}

fn linux_plan(steps: &mut Vec<PackageStep>, root: &str, application: &str, version: &str, arch: &str)
    ensures
        steps_view(final(steps)@) == steps_view(old(steps)@) + linux_steps(root@, application@, version@, arch@),
{
    let bundles = join(join(root, "distributions").as_str(), "bundle");
    let application_directory = join(bundles.as_str(), "AppDir");
    let binaries = join(join(application_directory.as_str(), "usr").as_str(), "bin");
    let launcher = join(application_directory.as_str(), "AppRun");
    let architecture = if text_equals(arch, "aarch64") {
        "aarch64"
    } else {
        "x86_64"
    };
    let tool = join(bundles.as_str(), "appimagetool");
    let mut url = to_owned_text("https://github.com/AppImage/appimagetool/releases/download/continuous/appimagetool-");
    url.append(architecture);
    url.append(".AppImage");
    let mut artifact_name = artifact_stem(version, "linux", arch);
    artifact_name.append(".AppImage");
    let destination = join(join(root, "artifacts").as_str(), artifact_name.as_str());
    push_step(steps, PackageStep::ResetDirectory(to_owned_text(bundles.as_str())));
    push_step(steps, PackageStep::CreateDirectory(to_owned_text(binaries.as_str()), to_owned_text("create the AppDir")));
    push_step(steps, PackageStep::CopyFile(to_owned_text(application), join(binaries.as_str(), "cursor-optimizer")));
    push_step(steps, PackageStep::CopyFile(join(join(root, "assets").as_str(), "icon.png"), join(application_directory.as_str(), "cursor-optimizer.png")));
    push_step(steps, PackageStep::WriteFile(join(application_directory.as_str(), "cursor-optimizer.desktop"), to_owned_text(LINUX_DESKTOP_ENTRY)));
    push_step(steps, PackageStep::WriteFile(to_owned_text(launcher.as_str()), to_owned_text(LINUX_APP_RUN)));
    let chmod_launcher = run_step("chmod", vec![to_owned_text("+x"), to_owned_text(launcher.as_str())]);
    assert(step_view(chmod_launcher)->Run_1 =~= seq!["+x"@, launcher@]);
    push_step(steps, chmod_launcher);
    let curl = run_step("curl", vec![to_owned_text("-fL"), to_owned_text("-o"), to_owned_text(tool.as_str()), url]);
    push_step(steps, curl);
    let chmod_tool = run_step("chmod", vec![to_owned_text("+x"), to_owned_text(tool.as_str())]);
    assert(step_view(chmod_tool)->Run_1 =~= seq!["+x"@, tool@]);
    push_step(steps, chmod_tool);
    push_step(steps, PackageStep::RemoveFile(to_owned_text(destination.as_str())));
    let build_arguments = vec![
        to_owned_text("--appimage-extract-and-run"),
        to_owned_text(application_directory.as_str()),
        to_owned_text(destination.as_str()),
    ];
    let environment = vec![(to_owned_text("ARCH"), to_owned_text(architecture))];
    let build = PackageStep::Run(tool, build_arguments, environment);
    assert(step_view(build)->Run_2 =~= seq![("ARCH"@, appimage_architecture(arch@))]);
    push_step(steps, build);
    report(steps, prefixed("AppImage written to ", destination.as_str()));
    proof {
        let expected = linux_steps(root@, application@, version@, arch@);
        let added = steps_view(steps@).skip(steps_view(old(steps)@).len() as int);
        assert(added[7]->Run_1 =~= expected[7]->Run_1);
        assert(added[10]->Run_1 =~= expected[10]->Run_1);
        assert(added =~= expected);
        assert(steps_view(steps@) =~= steps_view(old(steps)@) + added);
    }
}

/// Every step of packaging, in order.
pub fn packaging_plan(root: &str, os: &str, arch: &str, version: &str, node_modules_present: bool) -> (steps: Vec<PackageStep>)
    ensures
        steps_view(steps@) == spec_packaging_plan(root@, os@, arch@, version@, node_modules_present),
{
    let windows = text_equals(os, "windows");
    let mut steps: Vec<PackageStep> = Vec::new();
    if !node_modules_present {
        report(&mut steps, to_owned_text("installing web dependencies..."));
        let install = texts(vec!["ci"]);
        assert(texts_view(install@) =~= seq!["ci"@]);
        push_step(&mut steps, npm_step(windows, install));
    }
    let ghost dependencies = steps_view(steps@);
    report(&mut steps, to_owned_text("building application web bundle..."));
    let web_arguments = texts(vec!["run", "build", "--workspace", "cursor-optimizer-web"]);
    assert(texts_view(web_arguments@) =~= seq!["run"@, "build"@, "--workspace"@, "cursor-optimizer-web"@]);
    push_step(&mut steps, npm_step(windows, web_arguments));
    report(&mut steps, to_owned_text("building application binary..."));
    let cargo_arguments = texts(vec!["build", "--release", "-p", "cursor-optimizer"]);
    assert(texts_view(cargo_arguments@) =~= seq!["build"@, "--release"@, "-p"@, "cursor-optimizer"@]);
    push_step(&mut steps, run_step("cargo", cargo_arguments));
    let mut binary_name = to_owned_text("cursor-optimizer");
    if windows {
        binary_name.append(".exe");
    }
    proof {
        reveal_strlit("");
        assert(binary_name@ =~= "cursor-optimizer"@ + executable_suffix(windows));
    }
    let family = if windows {
        TargetFamily::Windows
    } else {
        TargetFamily::Unix
    };
    let application = join_on(
        family,
        join_on(family, join_on(family, root, "distributions").as_str(), "release").as_str(),
        binary_name.as_str(),
    );
    let missing = prefixed("expected application binary not found at ", application.as_str());
    push_step(&mut steps, PackageStep::RequireFile(to_owned_text(application.as_str()), missing));
    push_step(&mut steps, PackageStep::CreateDirectory(join_on(family, root, "artifacts"), to_owned_text("create the artifacts directory")));
    proof {
        let expected_dependencies: Seq<StepView> = if node_modules_present {
            Seq::empty()
        } else {
            seq![StepView::Report("installing web dependencies..."@), npm_view(windows, seq!["ci"@])]
        };
        assert(dependencies =~= expected_dependencies);
    }
    let ghost common = steps_view(steps@);
    proof {
        assert(common =~= common_steps(root@, windows, node_modules_present));
    }
    match package_target(os) {
        Ok(PackageTarget::Windows) => windows_plan(&mut steps, root, version, arch),
        Ok(PackageTarget::MacOs) => macos_plan(&mut steps, root, application.as_str(), version, arch),
        Ok(PackageTarget::Linux) => linux_plan(&mut steps, root, application.as_str(), version, arch),
        Err(message) => {
            push_step(&mut steps, PackageStep::Fail(message));
        },
    }
    steps
}

/// The message of a packaging command that could not start.
pub open spec fn start_failure(program: Seq<char>, error: Seq<char>) -> Seq<char> {
    "could not start "@ + program + ": "@ + error
}

/// The outcome of a packaging command: `None` when it could not start
/// (with why), else whether it succeeded.
pub fn command_outcome(program: &str, started: Result<bool, String>) -> (outcome: Result<(), String>)
    ensures
        match started {
            Err(e) => outcome matches Err(m) && m@ == start_failure(program@, e@),
            Ok(true) => outcome is Ok,
            Ok(false) => outcome matches Err(m) && m@ == program@ + " exited with a failure status"@,
        },
{
    match started {
        Err(e) => {
            let mut message = to_owned_text("could not start ");
            message.append(program);
            message.append(": ");
            message.append(e.as_str());
            Err(message)
        },
        Ok(true) => Ok(()),
        Ok(false) => {
            let mut message = to_owned_text(program);
            message.append(" exited with a failure status");
            Err(message)
        },
    }
}

} // verus!
