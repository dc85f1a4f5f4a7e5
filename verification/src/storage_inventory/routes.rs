//! The fixed locations of the storage overview.
use crate::text::joined3;
use vstd::prelude::*;

verus! {

/// One fixed storage location.
pub struct Route {
    pub id: Words,
    pub title: Words,
    pub category: &'static str,
    pub relative: Words,
    pub detail: Words,
    pub followup: Words,
    /// An existing fixed owner-review destination, never an executable command.
    pub provider: Option<&'static str>,
    /// Some locations are a single VM image. Never enumerate their data parent.
    pub file_only: bool,
    /// A child that has a location of its own.
    pub skip_child: Option<&'static str>,
    /// A shallow metadata inventory of the files with this ending.
    pub child_suffix: Option<&'static str>,
}

/// A coding assistant that installs its versions side by side: what it is called,
/// and the name of its folder.
#[derive(Clone, Copy)]
pub struct Tool {
    pub name: &'static str,
    pub folder: &'static str,
}

/// A fixed text, in which the assistant's name or its folder may stand between two
/// parts.
#[derive(Clone, Copy)]
pub enum Words {
    Plain(&'static str),
    Named(&'static str, &'static str),
    Filed(&'static str, &'static str),
}

impl Words {
    pub open spec fn text(self, tool: Tool) -> Seq<char> {
        match self {
            Words::Plain(text) => text@,
            Words::Named(before, after) => before@ + tool.name@ + after@,
            Words::Filed(before, after) => before@ + tool.folder@ + after@,
        }
    }

    pub fn render(self, tool: Tool) -> (r: String)
        ensures
            r@ == self.text(tool),
    {
        match self {
            Words::Plain(text) => text.to_owned(),
            Words::Named(before, after) => joined3(before, tool.name, after),
            Words::Filed(before, after) => joined3(before, tool.folder, after),
        }
    }
}

/// How many locations lie in a home folder.
pub const USER_ROUTES: usize = 11;

/// How many locations lie elsewhere on the system.
pub const SYSTEM_ROUTES: usize = 9;

/// Review-only defaults in a home folder, outside what discovery offers for
/// cleanup. Caches and logs that discovery measures have no place here, and none
/// of these is a whole settings, support, container or media folder.
pub open spec fn user_route(i: int) -> Route {
    if i == 0 {
        Route {
            id: Words::Plain("rustup-downloads"),
            title: Words::Plain("Rust toolchain downloads"),
            category: "Developer tools",
            relative: Words::Plain(".rustup/downloads"),
            detail: Words::Plain("Storage at this standard location may still be in use. A custom tool location is not included."),
            followup: Words::Plain("Review downloads with rustup before removing anything an installation may still need."),
            provider: None,
            file_only: false,
            skip_child: None,
            child_suffix: None,
        }
    } else if i == 1 {
        Route {
            id: Words::Plain("rust-toolchains"),
            title: Words::Plain("Rust toolchains"),
            category: "Developer tools",
            relative: Words::Plain(".rustup/toolchains"),
            detail: Words::Plain("These are installed Rust toolchains, including versions that projects may still require. No toolchain is classified as unused."),
            followup: Words::Plain("Use rustup toolchain list and review project overrides before uninstalling a specific toolchain."),
            provider: None,
            file_only: false,
            skip_child: None,
            child_suffix: None,
        }
    } else if i == 2 {
        Route {
            id: Words::Plain("docker-disk"),
            title: Words::Plain("Docker Desktop disk image"),
            category: "Containers",
            relative: Words::Plain("Library/Containers/com.docker.docker/Data/vms/0/data/Docker.raw"),
            detail: Words::Plain("This disk image includes active containers, images, volumes, or machines. Its allocated size is not unused space; its logical size may be much larger."),
            followup: Words::Plain("Review Docker's disk usage to identify unused data. Never remove the VM disk image to clear a cache."),
            provider: Some("docker"),
            file_only: true,
            skip_child: None,
            child_suffix: None,
        }
    } else if i == 3 {
        Route {
            id: Words::Plain("docker-disk-legacy"),
            title: Words::Plain("Docker Desktop disk image"),
            category: "Containers",
            relative: Words::Plain("Library/Containers/com.docker.docker/Data/vms/0/data/Docker.qcow2"),
            detail: Words::Plain("This disk image includes active containers, images, volumes, or machines. Its allocated size is not unused space; its logical size may be much larger."),
            followup: Words::Plain("Review Docker's disk usage to identify unused data. Never remove the VM disk image to clear a cache."),
            provider: Some("docker"),
            file_only: true,
            skip_child: None,
            child_suffix: None,
        }
    } else if i == 4 {
        Route {
            id: Words::Plain("orbstack-disk"),
            title: Words::Plain("OrbStack disk image"),
            category: "Containers",
            relative: Words::Plain("Library/Group Containers/HUAQ24HBR6.dev.orbstack/data/data.img"),
            detail: Words::Plain("This disk image includes active containers, images, volumes, or machines. Its allocated size is not unused space; its logical size may be much larger."),
            followup: Words::Plain("Use OrbStack to review containers and machines. Its virtual disk may contain important volumes and databases."),
            provider: None,
            file_only: true,
            skip_child: None,
            child_suffix: None,
        }
    } else if i == 5 {
        Route {
            id: Words::Plain("orbstack-disk-raw"),
            title: Words::Plain("OrbStack disk image"),
            category: "Containers",
            relative: Words::Plain("Library/Group Containers/HUAQ24HBR6.dev.orbstack/data/data.img.raw"),
            detail: Words::Plain("This disk image includes active containers, images, volumes, or machines. Its allocated size is not unused space; its logical size may be much larger."),
            followup: Words::Plain("Use OrbStack to review containers and machines. Its virtual disk may contain important volumes and databases."),
            provider: None,
            file_only: true,
            skip_child: None,
            child_suffix: None,
        }
    } else if i == 6 {
        Route {
            id: Words::Plain("orbstack-disk-legacy"),
            title: Words::Plain("OrbStack disk image"),
            category: "Containers",
            relative: Words::Plain(".orbstack/data/data.img"),
            detail: Words::Plain("This disk image includes active containers, images, volumes, or machines. Its allocated size is not unused space; its logical size may be much larger."),
            followup: Words::Plain("Use OrbStack to review containers and machines. Its virtual disk may contain important volumes and databases."),
            provider: None,
            file_only: true,
            skip_child: None,
            child_suffix: None,
        }
    } else if i == 7 {
        Route {
            id: Words::Filed("", "-versions"),
            title: Words::Named("", " versions"),
            category: "Developer tools",
            relative: Words::Filed(".local/share/", "/versions"),
            detail: Words::Named(
                "Versioned ",
                " installations may include the current and previous versions. This inventory does not identify which versions are unused.",
            ),
            followup: Words::Named(
                "Review the active ",
                " version and its installation before changing versioned binaries.",
            ),
            provider: None,
            file_only: false,
            skip_child: None,
            child_suffix: None,
        }
    } else if i == 8 {
        Route {
            id: Words::Plain("login-agents"),
            title: Words::Plain("Login items to review"),
            category: "Apps",
            relative: Words::Plain("Library/LaunchAgents"),
            detail: Words::Plain("These are user login-agent configuration files. This metadata-only overview does not inspect their configuration or establish that an app is missing."),
            followup: Words::Plain("Review Login Items in System Settings and uninstall unwanted helpers through their owning apps. These entries are not classified as stale."),
            provider: None,
            file_only: false,
            skip_child: None,
            child_suffix: Some(".plist"),
        }
    } else if i == 9 {
        Route {
            id: Words::Plain("simulator-cache"),
            title: Words::Plain("Simulator cache"),
            category: "Developer tools",
            relative: Words::Plain("Library/Developer/CoreSimulator/Caches"),
            detail: Words::Plain("Storage at this standard location may still be in use. A custom tool location is not included."),
            followup: Words::Plain("Review in Xcode Settings and Devices and Simulators. Keep runtimes and build data needed by current projects."),
            provider: None,
            file_only: false,
            skip_child: None,
            child_suffix: None,
        }
    } else {
        Route {
            id: Words::Plain("resolve-cache"),
            title: Words::Plain("DaVinci Resolve CacheClip"),
            category: "Apps",
            relative: Words::Plain("Movies/CacheClip"),
            detail: Words::Plain("This exact CacheClip location may contain generated DaVinci Resolve render cache. Original media folders are not scanned by this overview."),
            followup: Words::Plain("Use DaVinci Resolve's Delete Render Cache controls after reviewing the projects that use this cache."),
            provider: None,
            file_only: false,
            skip_child: None,
            child_suffix: None,
        }
    }
}

/// Review-only defaults elsewhere on the system.
pub open spec fn system_route(i: int) -> Route {
    if i == 0 {
        Route {
            id: Words::Plain("system-caches"),
            title: Words::Plain("System caches"),
            category: "System",
            relative: Words::Plain("Library/Caches"),
            detail: Words::Plain("Storage at this standard location may still be in use. A custom tool location is not included."),
            followup: Words::Plain("macOS and the owning app manage these files. Review with the owner; this overview does not remove system files."),
            provider: None,
            file_only: false,
            skip_child: None,
            child_suffix: None,
        }
    } else if i == 1 {
        Route {
            id: Words::Plain("system-logs"),
            title: Words::Plain("System app logs"),
            category: "System",
            relative: Words::Plain("Library/Logs"),
            detail: Words::Plain("Storage at this standard location may still be in use. A custom tool location is not included."),
            followup: Words::Plain("macOS and the owning app manage these files. Review with the owner; this overview does not remove system files."),
            provider: None,
            file_only: false,
            skip_child: Some("DiagnosticReports"),
            child_suffix: None,
        }
    } else if i == 2 {
        Route {
            id: Words::Plain("system-diagnostics"),
            title: Words::Plain("System diagnostic reports"),
            category: "System",
            relative: Words::Plain("Library/Logs/DiagnosticReports"),
            detail: Words::Plain("Storage at this standard location may still be in use. A custom tool location is not included."),
            followup: Words::Plain("macOS and the owning app manage these files. Review with the owner; this overview does not remove system files."),
            provider: None,
            file_only: false,
            skip_child: None,
            child_suffix: None,
        }
    } else if i == 3 {
        Route {
            id: Words::Plain("system-service-logs"),
            title: Words::Plain("System service logs"),
            category: "System",
            relative: Words::Plain("private/var/log"),
            detail: Words::Plain("Storage at this standard location may still be in use. A custom tool location is not included."),
            followup: Words::Plain("macOS and the owning app manage these files. Review with the owner; this overview does not remove system files."),
            provider: None,
            file_only: false,
            skip_child: None,
            child_suffix: None,
        }
    } else if i == 4 {
        Route {
            id: Words::Plain("simulator-system-cache"),
            title: Words::Plain("Simulator system cache"),
            category: "Developer tools",
            relative: Words::Plain("Library/Developer/CoreSimulator/Caches"),
            detail: Words::Plain("Storage at this standard location may still be in use. A custom tool location is not included."),
            followup: Words::Plain("Review in Xcode Settings and Devices and Simulators. Keep runtimes and build data needed by current projects."),
            provider: None,
            file_only: false,
            skip_child: None,
            child_suffix: None,
        }
    } else if i == 5 {
        Route {
            id: Words::Plain("simulator-images"),
            title: Words::Plain("Simulator runtime images"),
            category: "Developer tools",
            relative: Words::Plain("Library/Developer/CoreSimulator/Images"),
            detail: Words::Plain("Storage at this standard location may still be in use. A custom tool location is not included."),
            followup: Words::Plain("Review in Xcode Settings and Devices and Simulators. Keep runtimes and build data needed by current projects."),
            provider: None,
            file_only: false,
            skip_child: None,
            child_suffix: None,
        }
    } else if i == 6 {
        Route {
            id: Words::Plain("simulator-volumes"),
            title: Words::Plain("Simulator runtime volumes"),
            category: "Developer tools",
            relative: Words::Plain("Library/Developer/CoreSimulator/Volumes"),
            detail: Words::Plain("Mounted runtime volumes are excluded from traversal. Use Xcode to review installed runtimes and their storage."),
            followup: Words::Plain("Review in Xcode Settings and Devices and Simulators. Keep runtimes and build data needed by current projects."),
            provider: None,
            file_only: false,
            skip_child: None,
            child_suffix: None,
        }
    } else if i == 7 {
        Route {
            id: Words::Plain("homebrew-locks-arm"),
            title: Words::Plain("Homebrew lock files"),
            category: "Developer tools",
            relative: Words::Plain("opt/homebrew/var/homebrew/locks"),
            detail: Words::Plain("Storage at this standard location may still be in use. A custom tool location is not included."),
            followup: Words::Plain("Lock files may coordinate a running Homebrew operation. Review with Homebrew; age or a zero-byte size does not establish that a lock is stale."),
            provider: Some("homebrew"),
            file_only: false,
            skip_child: None,
            child_suffix: None,
        }
    } else {
        Route {
            id: Words::Plain("homebrew-locks-intel"),
            title: Words::Plain("Homebrew lock files"),
            category: "Developer tools",
            relative: Words::Plain("usr/local/var/homebrew/locks"),
            detail: Words::Plain("Storage at this standard location may still be in use. A custom tool location is not included."),
            followup: Words::Plain("Lock files may coordinate a running Homebrew operation. Review with Homebrew; age or a zero-byte size does not establish that a lock is stale."),
            provider: Some("homebrew"),
            file_only: false,
            skip_child: None,
            child_suffix: None,
        }
    }
}

/// A location by its number: first those of a home folder, then the others.
pub open spec fn route_of(i: int) -> Route {
    if i < USER_ROUTES {
        user_route(i)
    } else {
        system_route(i - USER_ROUTES)
    }
}

pub fn user_route_at(i: usize) -> (r: Route)
    ensures
        r == user_route(i as int),
{
    if i == 0 {
        Route {
            id: Words::Plain("rustup-downloads"),
            title: Words::Plain("Rust toolchain downloads"),
            category: "Developer tools",
            relative: Words::Plain(".rustup/downloads"),
            detail: Words::Plain("Storage at this standard location may still be in use. A custom tool location is not included."),
            followup: Words::Plain("Review downloads with rustup before removing anything an installation may still need."),
            provider: None,
            file_only: false,
            skip_child: None,
            child_suffix: None,
        }
    } else if i == 1 {
        Route {
            id: Words::Plain("rust-toolchains"),
            title: Words::Plain("Rust toolchains"),
            category: "Developer tools",
            relative: Words::Plain(".rustup/toolchains"),
            detail: Words::Plain("These are installed Rust toolchains, including versions that projects may still require. No toolchain is classified as unused."),
            followup: Words::Plain("Use rustup toolchain list and review project overrides before uninstalling a specific toolchain."),
            provider: None,
            file_only: false,
            skip_child: None,
            child_suffix: None,
        }
    } else if i == 2 {
        Route {
            id: Words::Plain("docker-disk"),
            title: Words::Plain("Docker Desktop disk image"),
            category: "Containers",
            relative: Words::Plain("Library/Containers/com.docker.docker/Data/vms/0/data/Docker.raw"),
            detail: Words::Plain("This disk image includes active containers, images, volumes, or machines. Its allocated size is not unused space; its logical size may be much larger."),
            followup: Words::Plain("Review Docker's disk usage to identify unused data. Never remove the VM disk image to clear a cache."),
            provider: Some("docker"),
            file_only: true,
            skip_child: None,
            child_suffix: None,
        }
    } else if i == 3 {
        Route {
            id: Words::Plain("docker-disk-legacy"),
            title: Words::Plain("Docker Desktop disk image"),
            category: "Containers",
            relative: Words::Plain("Library/Containers/com.docker.docker/Data/vms/0/data/Docker.qcow2"),
            detail: Words::Plain("This disk image includes active containers, images, volumes, or machines. Its allocated size is not unused space; its logical size may be much larger."),
            followup: Words::Plain("Review Docker's disk usage to identify unused data. Never remove the VM disk image to clear a cache."),
            provider: Some("docker"),
            file_only: true,
            skip_child: None,
            child_suffix: None,
        }
    } else if i == 4 {
        Route {
            id: Words::Plain("orbstack-disk"),
            title: Words::Plain("OrbStack disk image"),
            category: "Containers",
            relative: Words::Plain("Library/Group Containers/HUAQ24HBR6.dev.orbstack/data/data.img"),
            detail: Words::Plain("This disk image includes active containers, images, volumes, or machines. Its allocated size is not unused space; its logical size may be much larger."),
            followup: Words::Plain("Use OrbStack to review containers and machines. Its virtual disk may contain important volumes and databases."),
            provider: None,
            file_only: true,
            skip_child: None,
            child_suffix: None,
        }
    } else if i == 5 {
        Route {
            id: Words::Plain("orbstack-disk-raw"),
            title: Words::Plain("OrbStack disk image"),
            category: "Containers",
            relative: Words::Plain("Library/Group Containers/HUAQ24HBR6.dev.orbstack/data/data.img.raw"),
            detail: Words::Plain("This disk image includes active containers, images, volumes, or machines. Its allocated size is not unused space; its logical size may be much larger."),
            followup: Words::Plain("Use OrbStack to review containers and machines. Its virtual disk may contain important volumes and databases."),
            provider: None,
            file_only: true,
            skip_child: None,
            child_suffix: None,
        }
    } else if i == 6 {
        Route {
            id: Words::Plain("orbstack-disk-legacy"),
            title: Words::Plain("OrbStack disk image"),
            category: "Containers",
            relative: Words::Plain(".orbstack/data/data.img"),
            detail: Words::Plain("This disk image includes active containers, images, volumes, or machines. Its allocated size is not unused space; its logical size may be much larger."),
            followup: Words::Plain("Use OrbStack to review containers and machines. Its virtual disk may contain important volumes and databases."),
            provider: None,
            file_only: true,
            skip_child: None,
            child_suffix: None,
        }
    } else if i == 7 {
        Route {
            id: Words::Filed("", "-versions"),
            title: Words::Named("", " versions"),
            category: "Developer tools",
            relative: Words::Filed(".local/share/", "/versions"),
            detail: Words::Named(
                "Versioned ",
                " installations may include the current and previous versions. This inventory does not identify which versions are unused.",
            ),
            followup: Words::Named(
                "Review the active ",
                " version and its installation before changing versioned binaries.",
            ),
            provider: None,
            file_only: false,
            skip_child: None,
            child_suffix: None,
        }
    } else if i == 8 {
        Route {
            id: Words::Plain("login-agents"),
            title: Words::Plain("Login items to review"),
            category: "Apps",
            relative: Words::Plain("Library/LaunchAgents"),
            detail: Words::Plain("These are user login-agent configuration files. This metadata-only overview does not inspect their configuration or establish that an app is missing."),
            followup: Words::Plain("Review Login Items in System Settings and uninstall unwanted helpers through their owning apps. These entries are not classified as stale."),
            provider: None,
            file_only: false,
            skip_child: None,
            child_suffix: Some(".plist"),
        }
    } else if i == 9 {
        Route {
            id: Words::Plain("simulator-cache"),
            title: Words::Plain("Simulator cache"),
            category: "Developer tools",
            relative: Words::Plain("Library/Developer/CoreSimulator/Caches"),
            detail: Words::Plain("Storage at this standard location may still be in use. A custom tool location is not included."),
            followup: Words::Plain("Review in Xcode Settings and Devices and Simulators. Keep runtimes and build data needed by current projects."),
            provider: None,
            file_only: false,
            skip_child: None,
            child_suffix: None,
        }
    } else {
        Route {
            id: Words::Plain("resolve-cache"),
            title: Words::Plain("DaVinci Resolve CacheClip"),
            category: "Apps",
            relative: Words::Plain("Movies/CacheClip"),
            detail: Words::Plain("This exact CacheClip location may contain generated DaVinci Resolve render cache. Original media folders are not scanned by this overview."),
            followup: Words::Plain("Use DaVinci Resolve's Delete Render Cache controls after reviewing the projects that use this cache."),
            provider: None,
            file_only: false,
            skip_child: None,
            child_suffix: None,
        }
    }
}

pub fn system_route_at(i: usize) -> (r: Route)
    ensures
        r == system_route(i as int),
{
    if i == 0 {
        Route {
            id: Words::Plain("system-caches"),
            title: Words::Plain("System caches"),
            category: "System",
            relative: Words::Plain("Library/Caches"),
            detail: Words::Plain("Storage at this standard location may still be in use. A custom tool location is not included."),
            followup: Words::Plain("macOS and the owning app manage these files. Review with the owner; this overview does not remove system files."),
            provider: None,
            file_only: false,
            skip_child: None,
            child_suffix: None,
        }
    } else if i == 1 {
        Route {
            id: Words::Plain("system-logs"),
            title: Words::Plain("System app logs"),
            category: "System",
            relative: Words::Plain("Library/Logs"),
            detail: Words::Plain("Storage at this standard location may still be in use. A custom tool location is not included."),
            followup: Words::Plain("macOS and the owning app manage these files. Review with the owner; this overview does not remove system files."),
            provider: None,
            file_only: false,
            skip_child: Some("DiagnosticReports"),
            child_suffix: None,
        }
    } else if i == 2 {
        Route {
            id: Words::Plain("system-diagnostics"),
            title: Words::Plain("System diagnostic reports"),
            category: "System",
            relative: Words::Plain("Library/Logs/DiagnosticReports"),
            detail: Words::Plain("Storage at this standard location may still be in use. A custom tool location is not included."),
            followup: Words::Plain("macOS and the owning app manage these files. Review with the owner; this overview does not remove system files."),
            provider: None,
            file_only: false,
            skip_child: None,
            child_suffix: None,
        }
    } else if i == 3 {
        Route {
            id: Words::Plain("system-service-logs"),
            title: Words::Plain("System service logs"),
            category: "System",
            relative: Words::Plain("private/var/log"),
            detail: Words::Plain("Storage at this standard location may still be in use. A custom tool location is not included."),
            followup: Words::Plain("macOS and the owning app manage these files. Review with the owner; this overview does not remove system files."),
            provider: None,
            file_only: false,
            skip_child: None,
            child_suffix: None,
        }
    } else if i == 4 {
        Route {
            id: Words::Plain("simulator-system-cache"),
            title: Words::Plain("Simulator system cache"),
            category: "Developer tools",
            relative: Words::Plain("Library/Developer/CoreSimulator/Caches"),
            detail: Words::Plain("Storage at this standard location may still be in use. A custom tool location is not included."),
            followup: Words::Plain("Review in Xcode Settings and Devices and Simulators. Keep runtimes and build data needed by current projects."),
            provider: None,
            file_only: false,
            skip_child: None,
            child_suffix: None,
        }
    } else if i == 5 {
        Route {
            id: Words::Plain("simulator-images"),
            title: Words::Plain("Simulator runtime images"),
            category: "Developer tools",
            relative: Words::Plain("Library/Developer/CoreSimulator/Images"),
            detail: Words::Plain("Storage at this standard location may still be in use. A custom tool location is not included."),
            followup: Words::Plain("Review in Xcode Settings and Devices and Simulators. Keep runtimes and build data needed by current projects."),
            provider: None,
            file_only: false,
            skip_child: None,
            child_suffix: None,
        }
    } else if i == 6 {
        Route {
            id: Words::Plain("simulator-volumes"),
            title: Words::Plain("Simulator runtime volumes"),
            category: "Developer tools",
            relative: Words::Plain("Library/Developer/CoreSimulator/Volumes"),
            detail: Words::Plain("Mounted runtime volumes are excluded from traversal. Use Xcode to review installed runtimes and their storage."),
            followup: Words::Plain("Review in Xcode Settings and Devices and Simulators. Keep runtimes and build data needed by current projects."),
            provider: None,
            file_only: false,
            skip_child: None,
            child_suffix: None,
        }
    } else if i == 7 {
        Route {
            id: Words::Plain("homebrew-locks-arm"),
            title: Words::Plain("Homebrew lock files"),
            category: "Developer tools",
            relative: Words::Plain("opt/homebrew/var/homebrew/locks"),
            detail: Words::Plain("Storage at this standard location may still be in use. A custom tool location is not included."),
            followup: Words::Plain("Lock files may coordinate a running Homebrew operation. Review with Homebrew; age or a zero-byte size does not establish that a lock is stale."),
            provider: Some("homebrew"),
            file_only: false,
            skip_child: None,
            child_suffix: None,
        }
    } else {
        Route {
            id: Words::Plain("homebrew-locks-intel"),
            title: Words::Plain("Homebrew lock files"),
            category: "Developer tools",
            relative: Words::Plain("usr/local/var/homebrew/locks"),
            detail: Words::Plain("Storage at this standard location may still be in use. A custom tool location is not included."),
            followup: Words::Plain("Lock files may coordinate a running Homebrew operation. Review with Homebrew; age or a zero-byte size does not establish that a lock is stale."),
            provider: Some("homebrew"),
            file_only: false,
            skip_child: None,
            child_suffix: None,
        }
    }
}

/// A location by its number.
pub fn route_at(i: usize) -> (r: Route)
    ensures
        r == route_of(i as int),
{
    if i < USER_ROUTES {
        user_route_at(i)
    } else {
        system_route_at(i - USER_ROUTES)
    }
}

} // verus!
