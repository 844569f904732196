# csv_validator

Data-quality checks for CSV files kept in Azure Data Lake Storage Gen2 (or
on local disk), driven by a YAML file of column rules: `not_null`,
`no_duplicates`, `regex`, `min_length`, `max_length`, `allowed_values`,
`numeric_range` and `integer`.

## Layout

- `src/` is the library, written in Verus and verified as a whole; its
  public functions carry contracts that state what they return.
  - `config` – the configuration as data, its semantic checks and the
    path-prefix matching that maps a file to its rules;
  - `rules` – the rule engine, with a cache of compiled regexes;
  - `validator` – reading a CSV file and running the rules of its block;
  - `storage` – choosing the files of a folder listing by filename glob;
  - `reporter` – the totals and the summary line of a run;
  - `cli` – what the command-line settings decide;
  - `text`, `pattern`, `csv_table` – text helpers and the calls into the
    `regex` and `csv` crates.
- `app/` is the command-line program: argument parsing (clap), reading
  the YAML file (serde_yaml), talking to Azure (object_store), parsing
  floating-point numbers and printing the report.
- `tests/` exercises the library on concrete inputs.

The `regex`, `csv` and `globset` crates are called from the library through
a few trusted functions whose contracts name what those calls return; the
rest of the library is proved against those contracts.
