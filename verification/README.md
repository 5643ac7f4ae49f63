# rem_launcher

The core of Rem Launcher, a local-first Minecraft launcher, as a Verus-verified
Rust library, with a thin command-line front end around it.

- `src/` is the library. Every function there carries a `requires`/`ensures`
  contract that Verus proves: the provider-neutral content models, the Modrinth
  request paths and response mapping, the instance store and its lockfile
  (install, remove, verify, repair), the account and server stores, backup
  naming and the restore guard, `.mrpack` import rules (download hosts, hash
  checks, safe paths, instance names), and the install checks.
- Calls into outside crates (SHA-1/SHA-512, ZIP reading, JSON text, URL
  encoding, a few `std` text and path functions) go through small trusted
  wrappers whose contracts say what the crate's source shows.
- `app/` is a command-line front end: it reads and writes files, walks
  folders, talks to the network, the OS keychain and the Java runtime, and
  hands plain values to the library, which takes the decisions. It runs its
  async network calls on a `tokio` runtime.
- `tests/` runs the library on concrete values.

Verify with Verus on `src/lib.rs`; the tests run with the outside crates linked.
