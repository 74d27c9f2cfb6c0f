# aureum

The core of a desktop instance manager for Minecraft: Java Edition, written in
Verus. Every rule the launcher follows is a function of `src/` with a contract
that Verus proves:

- `resolve`: the dependency resolver (required dependencies walked, pins win
  over the latest version, conflicts reported) and the lockfile;
- `install`, `forge`, `maven`, `classpath`, `launch`, `java`: version
  manifests, loader metadata, library downloads, installer processors, the
  class path and the Java command line of a launch;
- `catalog`, `mods`, `content`, `mrpack`: the Modrinth catalog, installed mods
  and their load order, resource/shader/data packs, `.mrpack` import and export;
- `auth`, `creator`, `author`, `drafts`: Microsoft and Modrinth sign-in steps,
  creator drafts and publishing;
- `instances`, `commands`, `logfiles`, `media`, `paths`: instance records,
  folder naming and the file names that may be read inside an instance;
- `json`, `text`, `order`, `digest`: JSON lookups, text operations, sorting,
  and the hashing and encoding crates behind small trusted wrappers.

Public proof functions named `law_*` state properties that span several
functions (a lockfile entry replaced by an upsert, a slug that is always a
safe folder name, listings that come out sorted, ...).

`app/` is the ordinary Rust around the library: environment variables, HTTP
requests, file system scans, zip archives, spawning Java, the OAuth callback
listener.
