# warm_ml

The verified core of a web application firewall assisted by machine learning:
rule bookkeeping, feature extraction, dataset management and sample selection.

- `src/` is the library, proved with Verus:
  - `rule_text`: the rule ids that a rule file declares (`id:<digits>` clauses
    after joining continued lines), and the `.conf` file-name test;
  - `waf_engines`: rules, the rule-engine trait, the rule list with its
    id-to-position index (`RuleIndex`, which every engine holds) and the mock engine;
  - `features`: feature rows of requests and the training rows of a dataset;
  - `dataset`: dataset files, ordering, quota-based random selection;
  - `evaluation`: whether the model or the rule engine evaluates a request,
    and the engine's answer where it decides;
  - `verdict`: the result of an evaluation;
  - `rule_files`: choosing rule files by a regular expression on their name;
  - `http_request`, `model_algorithm`, `text`, `char_classes`: supporting types;
  - `sample_array`, `random`: the calls into `ndarray` and `rand`
    (`rule_files` holds those into `regex`).
- `app/` is the rest: file and directory access, threads, the ModSecurity
  engine, conversions from `http` requests, and the floating-point models of
  `linfa` with the firewall object that uses them.
- `tests/` runs the library on concrete values.
