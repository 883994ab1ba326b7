# account_autofill

The library behind a desktop tool that keeps account passwords and types them into the
window of another application. The functions in `src/` are verified with Verus against
their contracts; the few that call an outside crate or a part of std that Verus has no
specification for are marked `#[verifier::external_body]`, and their contracts say what is
assumed of that call.

- `src/accounts.rs`: the accounts (add, delete, look up) and the form in which they are
  written to the data file.
- `src/obfuscation.rs`: the base64 obfuscation of stored passwords.
- `src/text.rs`: trimming, splitting, searching and integer parsing over characters.
- `src/window_list.rs`, `src/lsappinfo.rs`: reading the window and application lists that
  the macOS tools print.
- `src/macos.rs`: the accessibility answer, the AppleScript that is run, and the steps of
  an auto-fill.
- `src/win32.rs`: which windows are listed on Windows and the key codes that are sent.
- `app/`: the Tauri application: commands, the data file, and the system calls.
