# pswd

A password manager for the terminal. Records are kept in an SQLite file; their
passwords are encrypted with AES-256-GCM under a random vault key, and that key
is wrapped once under each credential that may open the vault: the master
password, the machine code, and the answers to security questions.

`src/` is the library, verified with Verus:

- `text`: trimming, numerals, splitting and other text helpers
- `b64`: what Base64 encodes and decodes
- `crypto`: key derivation, sealing, key wrapping, password encryption, and the
  scrambling of the legacy format
- `sort`: the order of record names by group and pinyin, and fuzzy matching
- `storage`: the table `meta`, setting up, unlocking and recovering a vault,
  and the stored records: adding, changing, deleting, listing and searching
- `migrate`: the import of records kept in the legacy format
- `ui`: keys, masked input, colours, the banner, and the wizards for setting up
  and unlocking a vault
- `session`: the main list, its pages, its selection and its commands
- `forms`: the page of a record, and the forms for adding and changing one

`app/` is the program around it: the database file, the terminal, the clipboard
and the files of a migration. `tests/` holds the tests of the library.
