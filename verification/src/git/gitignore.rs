//! Bundled `.gitignore` templates and the block appended to a repository's
//! `.gitignore` when one is applied (append-only, never overwriting).
use crate::ui::diff_file_header::same_str;
use crate::text::push_char;
use vstd::prelude::*;

verus! {

/// The `Rust` template.
pub const RUST_TEMPLATE: &'static str = "# Generated by Cargo\n# will have compiled files and executables\ndebug/\ntarget/\n\n# These are backup files generated by rustfmt\n**/*.rs.bk\n\n# MSVC Windows builds of rustc generate these, which store debugging information\n*.pdb\n";

/// The `Python` template.
pub const PYTHON_TEMPLATE: &'static str = "# Byte-compiled / optimized / DLL files\n__pycache__/\n*.py[cod]\n*$py.class\n\n# C extensions\n*.so\n\n# Distribution / packaging\nbuild/\ndist/\n*.egg-info/\n.eggs/\n\n# Environments\n.env\n.venv\nenv/\nvenv/\n\n# Unit test / coverage reports\n.pytest_cache/\n.coverage\nhtmlcov/\n";

/// The `JavaScript` template.
pub const JAVASCRIPT_TEMPLATE: &'static str = "# Logs\nlogs\n*.log\nnpm-debug.log*\n\n# Dependency directories\nnode_modules/\n\n# Build output\ndist/\nbuild/\n\n# Coverage\ncoverage/\n";

/// The `TypeScript` template.
pub const TYPESCRIPT_TEMPLATE: &'static str = "# Dependency directories\nnode_modules/\n\n# Compiled output\ndist/\nbuild/\n*.tsbuildinfo\n\n# Logs\n*.log\n";

/// The `Node` template.
pub const NODE_TEMPLATE: &'static str = "# Logs\nlogs\n*.log\nnpm-debug.log*\nyarn-debug.log*\nyarn-error.log*\n\n# Dependency directories\nnode_modules/\njspm_packages/\n\n# Optional npm cache directory\n.npm\n\n# dotenv environment variable files\n.env\n";

/// The `Go` template.
pub const GO_TEMPLATE: &'static str = "# Binaries for programs and plugins\n*.exe\n*.exe~\n*.dll\n*.so\n*.dylib\n\n# Test binary, built with `go test -c`\n*.test\n\n# Output of the go coverage tool\n*.out\n\n# Dependency directories\nvendor/\n";

/// The `Java` template.
pub const JAVA_TEMPLATE: &'static str = "# Compiled class file\n*.class\n\n# Log file\n*.log\n\n# Package Files\n*.jar\n*.war\n*.nar\n*.ear\n*.zip\n*.tar.gz\n*.rar\n\n# virtual machine crash logs\nhs_err_pid*\n";

/// The `C` template.
pub const C_TEMPLATE: &'static str = "# Prerequisites\n*.d\n\n# Object files\n*.o\n*.ko\n*.obj\n*.elf\n\n# Libraries\n*.lib\n*.a\n*.la\n*.lo\n\n# Shared objects\n*.dll\n*.so\n*.so.*\n*.dylib\n\n# Executables\n*.exe\n*.out\n*.app\n";

/// The `C++` template.
pub const CPLUSPLUS_TEMPLATE: &'static str = "# Prerequisites\n*.d\n\n# Compiled Object files\n*.slo\n*.lo\n*.o\n*.obj\n\n# Precompiled Headers\n*.gch\n*.pch\n\n# Compiled Dynamic libraries\n*.so\n*.dylib\n*.dll\n\n# Compiled Static libraries\n*.lai\n*.la\n*.a\n*.lib\n\n# Executables\n*.exe\n*.out\n*.app\n";

/// The `Ruby` template.
pub const RUBY_TEMPLATE: &'static str = "*.gem\n*.rbc\n/.config\n/coverage/\n/pkg/\n/tmp/\n\n# Environment normalization\n/.bundle/\n/vendor/bundle\n";

/// The `Swift` template.
pub const SWIFT_TEMPLATE: &'static str = "# Xcode\nxcuserdata/\n*.xcscmblueprint\n*.xccheckout\n\n# Build\nbuild/\nDerivedData/\n\n# Swift Package Manager\n.build/\nPackages/\n";

/// The `Kotlin` template.
pub const KOTLIN_TEMPLATE: &'static str = "# Compiled class file\n*.class\n\n# Log file\n*.log\n\n# Package Files\n*.jar\n*.war\n\n# Gradle\n.gradle/\nbuild/\n";

/// The `Dart` template.
pub const DART_TEMPLATE: &'static str = "# Files and directories created by pub\n.dart_tool/\n.packages\nbuild/\npubspec.lock\n";

/// The `.NET` template.
pub const DOTNET_TEMPLATE: &'static str = "# Build results\n[Dd]ebug/\n[Rr]elease/\nx64/\nx86/\n[Bb]in/\n[Oo]bj/\n\n# User-specific files\n*.user\n*.suo\n\n# Visual Studio cache\n.vs/\n";

/// The `macOS` template.
pub const MACOS_TEMPLATE: &'static str = "# General\n.DS_Store\n.AppleDouble\n.LSOverride\n\n# Icon must end with two \\r\nIcon\n\n# Thumbnails\n._*\n\n# Files that might appear in the root of a volume\n.DocumentRevisions-V100\n.fseventsd\n.Spotlight-V100\n.TemporaryItems\n.Trashes\n";

/// The `Linux` template.
pub const LINUX_TEMPLATE: &'static str = "*~\n\n# temporary files which can be created if a process still has a handle open of a deleted file\n.fuse_hidden*\n\n# KDE directory preferences\n.directory\n\n# Linux trash folder which might appear on any partition or disk\n.Trash-*\n\n# .nfs files are created when an open file is removed but is still being accessed\n.nfs*\n";

/// The `Windows` template.
pub const WINDOWS_TEMPLATE: &'static str = "# Windows thumbnail cache files\nThumbs.db\nehthumbs.db\n\n# Folder config file\n[Dd]esktop.ini\n\n# Recycle Bin used on file shares\n$RECYCLE.BIN/\n\n# Windows shortcuts\n*.lnk\n";

/// Names of the bundled templates, in display order.
pub open spec fn template_names() -> Seq<Seq<char>> {
    seq!["Rust"@, "Python"@, "JavaScript"@, "TypeScript"@, "Node"@, "Go"@, "Java"@, "C"@, "C++"@, "Ruby"@, "Swift"@, "Kotlin"@, "Dart"@, ".NET"@, "macOS"@, "Linux"@, "Windows"@]
}

/// Content of the template called `name`.
pub open spec fn template_of(name: Seq<char>) -> Option<Seq<char>> {
    if name == "Rust"@ {
        Some(RUST_TEMPLATE@)
    } else if name == "Python"@ {
        Some(PYTHON_TEMPLATE@)
    } else if name == "JavaScript"@ {
        Some(JAVASCRIPT_TEMPLATE@)
    } else if name == "TypeScript"@ {
        Some(TYPESCRIPT_TEMPLATE@)
    } else if name == "Node"@ {
        Some(NODE_TEMPLATE@)
    } else if name == "Go"@ {
        Some(GO_TEMPLATE@)
    } else if name == "Java"@ {
        Some(JAVA_TEMPLATE@)
    } else if name == "C"@ {
        Some(C_TEMPLATE@)
    } else if name == "C++"@ {
        Some(CPLUSPLUS_TEMPLATE@)
    } else if name == "Ruby"@ {
        Some(RUBY_TEMPLATE@)
    } else if name == "Swift"@ {
        Some(SWIFT_TEMPLATE@)
    } else if name == "Kotlin"@ {
        Some(KOTLIN_TEMPLATE@)
    } else if name == "Dart"@ {
        Some(DART_TEMPLATE@)
    } else if name == ".NET"@ {
        Some(DOTNET_TEMPLATE@)
    } else if name == "macOS"@ {
        Some(MACOS_TEMPLATE@)
    } else if name == "Linux"@ {
        Some(LINUX_TEMPLATE@)
    } else if name == "Windows"@ {
        Some(WINDOWS_TEMPLATE@)
    } else {
        None
    }
}

/// Names of all bundled templates, in display order.
pub fn gitignore_list_templates() -> (names: Vec<&'static str>)
    ensures
        names@.map_values(|n: &str| n@) == template_names(),
{
    let mut names: Vec<&'static str> = Vec::new();
    names.push("Rust");
    names.push("Python");
    names.push("JavaScript");
    names.push("TypeScript");
    names.push("Node");
    names.push("Go");
    names.push("Java");
    names.push("C");
    names.push("C++");
    names.push("Ruby");
    names.push("Swift");
    names.push("Kotlin");
    names.push("Dart");
    names.push(".NET");
    names.push("macOS");
    names.push("Linux");
    names.push("Windows");
    assert(names@.map_values(|n: &str| n@) == template_names());
    names
}

/// Content of a template, or `None` for an unknown name.
pub fn gitignore_template_content(name: &str) -> (content: Option<&'static str>)
    ensures
        match content {
            Some(c) => template_of(name@) == Some(c@),
            None => template_of(name@) is None,
        },
{
    if same_str(name, "Rust") {
        return Some(RUST_TEMPLATE);
    }
    if same_str(name, "Python") {
        return Some(PYTHON_TEMPLATE);
    }
    if same_str(name, "JavaScript") {
        return Some(JAVASCRIPT_TEMPLATE);
    }
    if same_str(name, "TypeScript") {
        return Some(TYPESCRIPT_TEMPLATE);
    }
    if same_str(name, "Node") {
        return Some(NODE_TEMPLATE);
    }
    if same_str(name, "Go") {
        return Some(GO_TEMPLATE);
    }
    if same_str(name, "Java") {
        return Some(JAVA_TEMPLATE);
    }
    if same_str(name, "C") {
        return Some(C_TEMPLATE);
    }
    if same_str(name, "C++") {
        return Some(CPLUSPLUS_TEMPLATE);
    }
    if same_str(name, "Ruby") {
        return Some(RUBY_TEMPLATE);
    }
    if same_str(name, "Swift") {
        return Some(SWIFT_TEMPLATE);
    }
    if same_str(name, "Kotlin") {
        return Some(KOTLIN_TEMPLATE);
    }
    if same_str(name, "Dart") {
        return Some(DART_TEMPLATE);
    }
    if same_str(name, ".NET") {
        return Some(DOTNET_TEMPLATE);
    }
    if same_str(name, "macOS") {
        return Some(MACOS_TEMPLATE);
    }
    if same_str(name, "Linux") {
        return Some(LINUX_TEMPLATE);
    }
    if same_str(name, "Windows") {
        return Some(WINDOWS_TEMPLATE);
    }
    None
}

/// What applying a template appends to a `.gitignore` holding `existing`:
/// a newline when the file does not end with one, a blank line when it is
/// not empty, a `# === name ===` header, the template, and a final newline
/// when the template lacks one.
pub open spec fn spec_gitignore_block(existing: Seq<char>, name: Seq<char>, content: Seq<char>) -> Seq<char> {
    let sep: Seq<char> = if existing.len() == 0 {
        Seq::empty()
    } else if existing.last() != '\n' {
        seq!['\n', '\n']
    } else {
        seq!['\n']
    };
    let body = sep + "# === "@ + name + " ===\n"@ + content;
    if body.len() > 0 && body.last() == '\n' {
        body
    } else {
        body.push('\n')
    }
}

/// The text to append to `existing` for the template `name` with `content`.
pub fn gitignore_block(existing: &str, name: &str, content: &str) -> (block: String)
    ensures
        block@ == spec_gitignore_block(existing@, name@, content@),
{
    let n = existing.unicode_len();
    let mut block = String::new();
    if n > 0 && existing.get_char(n - 1) != '\n' {
        push_char(&mut block, '\n');
    }
    if n > 0 {
        push_char(&mut block, '\n');
    }
    block.append("# === ");
    block.append(name);
    block.append(" ===\n");
    block.append(content);
    let m = block.as_str().unicode_len();
    proof {
        reveal_strlit(" ===\n");
    }
    if !(m > 0 && block.as_str().get_char(m - 1) == '\n') {
        push_char(&mut block, '\n');
    }
    block
}

/// The block to append to a `.gitignore` holding `existing` for the template
/// `template_name`; an unknown name is an error.
pub fn gitignore_addition(existing: &str, template_name: &str) -> (r: Result<String, crate::git::error::GitError>)
    ensures
        match template_of(template_name@) {
            Some(c) => r matches Ok(b) && b@ == spec_gitignore_block(existing@, template_name@, c),
            None => r matches Err(crate::git::error::GitError::OperationFailed { operation, details })
                && operation@ == "gitignore_add"@ && details@ == "Unknown template: "@ + template_name@,
        },
{
    match gitignore_template_content(template_name) {
        Some(content) => Ok(gitignore_block(existing, template_name, content)),
        None => {
            let mut details = String::from_str("Unknown template: ");
            details.append(template_name);
            Err(crate::git::error::GitError::OperationFailed { operation: String::from_str("gitignore_add"), details })
        },
    }
}

/// Applying a template never changes what the file already held: the new
/// file is the old one followed by the block, and it ends with a newline.
pub proof fn lemma_gitignore_append_only(existing: Seq<char>, name: Seq<char>, content: Seq<char>)
    ensures
        (existing + spec_gitignore_block(existing, name, content)).subrange(0, existing.len() as int) == existing,
        (existing + spec_gitignore_block(existing, name, content)).last() == '\n',
{
    let b = spec_gitignore_block(existing, name, content);
    assert((existing + b).subrange(0, existing.len() as int) == existing);
    assert(b.len() > 0);
    assert((existing + b).last() == b.last());
}

} // verus!
