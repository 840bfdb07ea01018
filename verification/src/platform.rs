//! Platforms, languages, project types and task types, with the string keys
//! they contribute to configuration lookup, and platform detection for a
//! task from its command and owning project's language.
use vstd::prelude::*;

verus! {

/// The runtime a task executes under.
#[derive(Clone, Copy, PartialEq, Eq, Structural, Debug)]
pub enum PlatformType {
    Deno,
    Node,
    Rust,
    System,
    Unknown,
}

impl PlatformType {
    /// Whether the platform is still undetected.
    pub fn is_unknown(&self) -> (r: bool)
        ensures
            r == (*self == PlatformType::Unknown),
    {
        matches!(self, PlatformType::Unknown)
    }

    /// The platform's configuration key.
    pub fn key(&self) -> (r: String)
        ensures
            r@ == self.spec_key(),
    {
        match self {
            PlatformType::Deno => "deno".to_owned(),
            PlatformType::Node => "node".to_owned(),
            PlatformType::Rust => "rust".to_owned(),
            PlatformType::System => "system".to_owned(),
            PlatformType::Unknown => "unknown".to_owned(),
        }
    }

    /// The platform's configuration key.
    pub open spec fn spec_key(&self) -> Seq<char> {
        match self {
            PlatformType::Deno => "deno"@,
            PlatformType::Node => "node"@,
            PlatformType::Rust => "rust"@,
            PlatformType::System => "system"@,
            PlatformType::Unknown => "unknown"@,
        }
    }
}

impl Default for PlatformType {
    fn default() -> (r: Self)
        ensures
            r == PlatformType::Unknown,
    {
        PlatformType::Unknown
    }
}

/// The language a project is written in.
#[derive(Clone, Copy, PartialEq, Eq, Structural, Debug)]
pub enum LanguageType {
    Bash,
    Go,
    JavaScript,
    Php,
    Python,
    Ruby,
    Rust,
    TypeScript,
    Unknown,
}

impl LanguageType {
    /// Whether the language is still undetected.
    pub fn is_unknown(&self) -> (r: bool)
        ensures
            r == (*self == LanguageType::Unknown),
    {
        matches!(self, LanguageType::Unknown)
    }

    /// The language's configuration key.
    pub fn key(&self) -> (r: String)
        ensures
            r@ == self.spec_key(),
    {
        match self {
            LanguageType::Bash => "bash".to_owned(),
            LanguageType::Go => "go".to_owned(),
            LanguageType::JavaScript => "javascript".to_owned(),
            LanguageType::Php => "php".to_owned(),
            LanguageType::Python => "python".to_owned(),
            LanguageType::Ruby => "ruby".to_owned(),
            LanguageType::Rust => "rust".to_owned(),
            LanguageType::TypeScript => "typescript".to_owned(),
            LanguageType::Unknown => "unknown".to_owned(),
        }
    }

    /// The language's configuration key.
    pub open spec fn spec_key(&self) -> Seq<char> {
        match self {
            LanguageType::Bash => "bash"@,
            LanguageType::Go => "go"@,
            LanguageType::JavaScript => "javascript"@,
            LanguageType::Php => "php"@,
            LanguageType::Python => "python"@,
            LanguageType::Ruby => "ruby"@,
            LanguageType::Rust => "rust"@,
            LanguageType::TypeScript => "typescript"@,
            LanguageType::Unknown => "unknown"@,
        }
    }

    /// The platform a project of this language runs under by default.
    pub open spec fn spec_platform(&self) -> PlatformType {
        match self {
            LanguageType::JavaScript => PlatformType::Node,
            LanguageType::TypeScript => PlatformType::Node,
            LanguageType::Rust => PlatformType::Rust,
            LanguageType::Bash => PlatformType::System,
            _ => PlatformType::Unknown,
        }
    }

    /// The platform a project of this language runs under by default.
    pub fn platform_of(&self) -> (r: PlatformType)
        ensures
            r == self.spec_platform(),
    {
        match self {
            LanguageType::JavaScript => PlatformType::Node,
            LanguageType::TypeScript => PlatformType::Node,
            LanguageType::Rust => PlatformType::Rust,
            LanguageType::Bash => PlatformType::System,
            _ => PlatformType::Unknown,
        }
    }
}

/// What a project is: an application, a shared library, or an internal tool.
#[derive(Clone, Copy, PartialEq, Eq, Structural, Debug)]
pub enum ProjectType {
    Application,
    Library,
    Tool,
    Unknown,
}

impl ProjectType {
    /// The project type's configuration key.
    pub fn key(&self) -> (r: String)
        ensures
            r@ == self.spec_key(),
    {
        match self {
            ProjectType::Application => "application".to_owned(),
            ProjectType::Library => "library".to_owned(),
            ProjectType::Tool => "tool".to_owned(),
            ProjectType::Unknown => "unknown".to_owned(),
        }
    }

    /// The project type's configuration key.
    pub open spec fn spec_key(&self) -> Seq<char> {
        match self {
            ProjectType::Application => "application"@,
            ProjectType::Library => "library"@,
            ProjectType::Tool => "tool"@,
            ProjectType::Unknown => "unknown"@,
        }
    }
}

/// How a task is classified after expansion.
#[derive(Clone, Copy, PartialEq, Eq, Structural, Debug)]
pub enum TaskType {
    Build,
    Run,
    Test,
}

/// Whether tasks of this platform inherit JavaScript-family defaults.
pub fn is_js_platform(platform: &PlatformType) -> (r: bool)
    ensures
        r == spec_is_js_platform(*platform),
{
    matches!(platform, PlatformType::Deno | PlatformType::Node)
}

/// Whether a platform belongs to the JavaScript family.
pub open spec fn spec_is_js_platform(platform: PlatformType) -> bool {
    platform == PlatformType::Deno || platform == PlatformType::Node
}

/// Commands that select the Node platform on their own.
pub open spec fn spec_is_node_command(c: Seq<char>) -> bool {
    ||| c == "node"@
    ||| c == "nodejs"@
    ||| c == "npm"@
    ||| c == "npx"@
    ||| c == "yarn"@
    ||| c == "yarnpkg"@
    ||| c == "pnpm"@
    ||| c == "pnpx"@
    ||| c == "corepack"@
}

/// The platform a task's command runs under: a known Node or Deno command
/// decides on its own, else the owning project's language decides, else the
/// platform stays unknown.
pub open spec fn spec_detect_task_platform(command: Seq<char>, language: LanguageType) -> PlatformType {
    if spec_is_node_command(command) {
        PlatformType::Node
    } else if command == "deno"@ {
        PlatformType::Deno
    } else {
        language.spec_platform()
    }
}

/// Detect the platform a task runs under from its command and language.
pub fn detect_task_platform(command: &str, language: &LanguageType) -> (r: PlatformType)
    ensures
        r == spec_detect_task_platform(command@, *language),
{
    if crate::ids::str_eq(command, "node") || crate::ids::str_eq(command, "nodejs")
        || crate::ids::str_eq(command, "npm") || crate::ids::str_eq(command, "npx")
        || crate::ids::str_eq(command, "yarn") || crate::ids::str_eq(command, "yarnpkg")
        || crate::ids::str_eq(command, "pnpm") || crate::ids::str_eq(command, "pnpx")
        || crate::ids::str_eq(command, "corepack") {
        PlatformType::Node
    } else if crate::ids::str_eq(command, "deno") {
        PlatformType::Deno
    } else {
        language.platform_of()
    }
}

} // verus!
