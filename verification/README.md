# dylib_kit

A verified library for coordinating several dylib hooks in one macOS application, and for patching
them into its binary.

- `src/` holds the library. It decides and computes: which hooks are registered and which conflict,
  what a patch, a removal or a restoration does to the binary, whether the patcher runs inside the
  application, how the application is quit, whether the hooks report in their logs that they work,
  and what the command line asks for. Every function carries its contract; the `*_laws` modules
  prove what holds across functions, such as that a patch always starts from the clean binary and
  that any number of registrations, made one after the other, are all kept. The lock that makes
  concurrent writers follow one another is taken in `app/`.
- `src/outside.rs` holds the calls into other crates, with what is believed of each.
- `app/` runs the programs, reads and writes the files and prints.
- `tests/` runs the library on concrete values.

A hook project describes its hook and hands it to the command line:

```rust
let project = HookProject::new("my-hook", "libmy_hook.dylib").with_registry_entry(
    HookEntry::new("my-hook", "")
        .with_symbol("target_fn", "replace", "what it does")
        .with_load_order(1)
        .with_health_check(
            HealthCheck::new("~/Library/Logs/App/my-hook.*.log").with_success("hook installed"),
        ),
);
```

```text
cargo patch                # build + inject + sign
cargo patch --verify       # + launch + verify health markers
cargo patch status         # show registry + artifact hashes + stale check
cargo patch verify         # verify only (already patched)
cargo patch remove         # remove this hook, keep others
cargo patch restore        # restore the unpatched binary
```
