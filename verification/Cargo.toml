[package]
name = "dicom_preprocessor"
version = "0.1.0"
edition = "2021"
publish = false

[dependencies]
bytemuck = "*"
console_error_panic_hook = "*"
dicom-core = "*"
dicom-object = "*"
dicom-pixeldata = "*"
image = "*"
js-sys = "*"
wasm-bindgen = "*"
zip = "*"

[dev-dependencies]
half = "*"
