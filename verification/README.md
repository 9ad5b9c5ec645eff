# tusk

A Composer-compatible PHP package manager whose core is verified with Verus.

- `src/` is the library: version and constraint grammar (`version`,
  `constraint`), the JSON model and the readers and writers of
  `composer.json` and `composer.lock` (`json`, `decode`, `manifest`,
  `lock`), registry metadata (`registry`, `curl_metadata`), dependency
  resolution (`resolver`, with its laws in `guarantees`), archive checks and
  layout (`installer`), autoloader generation (`autoload`, with how PHP
  reads its PSR-4 file in `php_array` and its dependence on the vendor
  directory in `relocation`) and the command
  arguments (`cli`). Its functions carry contracts, and Verus proves every
  function body in it except those of the trusted wrappers: the calls into
  `serde_json`, `indexmap`, `sha1_smol`, `zip` and `std` stand behind small
  functions marked `external_body`, whose contracts Verus takes without
  proof and whose doc comments say what each contract claims of the code
  it calls.
- `app/` is the program around it: argument parsing, HTTP and disk work,
  progress output, and the command loop that feeds registry answers to the
  resolver.
- `tests/` exercises the library on concrete inputs.
