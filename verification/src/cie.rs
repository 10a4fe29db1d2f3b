//! The CIE 1931 standard observer: the matching functions X, Y and Z at the
//! 471 wavelengths from 360 nm to 830 nm, one nanometre apart, each value
//! held by its single-precision encoding.

use vstd::prelude::*;

verus! {

/// The number of wavelengths at which the matching functions are tabulated.
pub const N_CIE_SAMPLES: u16 = 471;

/// The first tabulated wavelength, in nanometres.
pub const CIE_LAMBDA_START: u16 = 360;

/// The encoding of 106.856895, the integral of the Y matching function.
pub const CIE_Y_INTEGRAL: u32 = 0x42d5_b6bb;

/// The X matching function.
pub const CIE_X: [u32; 471] = [
    0x3908_35c4, 0x3918_ee82, 0x392b_c24b, 0x3940_f11e, 0x3958_bafa, 0x3973_5fdf, 0x3988_b252, 0x3999_a7dc,
    0x39ac_b1b6, 0x39c1_f104, 0x39d9_86ef, 0x39f3_5a53, 0x3a08_0c90, 0x3a18_8790, 0x3a2b_c40e, 0x3a42_67ef,
    0x3a5d_84fa, 0x3a7c_d84c, 0x3a8f_8464, 0x3aa1_5eac, 0x3ab3_4e77, 0x3ac4_e06f, 0x3ad7_4362, 0x3aec_3de7,
    0x3b02_cb3f, 0x3b12_89db, 0x3b26_28b4, 0x3b3d_91d3, 0x3b58_52b9, 0x3b75_f8da, 0x3b8b_08dd, 0x3b9c_0dd1,
    0x3bae_a7af, 0x3bc3_e912, 0x3bdc_e497, 0x3bfa_acda, 0x3c0f_61eb, 0x3c24_502c, 0x3c3b_2215, 0x3c52_d88a,
    0x3c6a_747e, 0x3c80_a694, 0x3c8c_78ca, 0x3c99_db13, 0x3ca9_f7bb, 0x3cbd_f8f4, 0x3cd6_b0d1, 0x3cf3_fa63,
    0x3d0a_c6b8, 0x3d1d_90e0, 0x3d32_378b, 0x3d48_af9c, 0x3d61_5f61, 0x3d7c_ccda, 0x3d8d_bf05, 0x3d9e_fc7a,
    0x3db2_1718, 0x3dc7_0497, 0x3dde_041f, 0x3df7_54cb, 0x3e09_9ae9, 0x3e18_f15b, 0x3e29_5d7e, 0x3e3a_59c7,
    0x3e4b_60af, 0x3e5b_ecab, 0x3e6b_b617, 0x3e7a_c1be, 0x3e84_7e75, 0x3e8b_2a68, 0x3e91_5b57, 0x3e97_02e0,
    0x3e9c_1b65, 0x3ea0_a8bb, 0x3ea4_aeb5, 0x3ea8_3127, 0x3eab_3018, 0x3ead_acf2, 0x3eaf_ad98, 0x3eb1_37e6,
    0x3eb2_51c2, 0x3eb2_fec2, 0x3eb3_4685, 0x3eb3_34e7, 0x3eb2_d5bf, 0x3eb2_34ec, 0x3eb1_57d7, 0x3eb0_4329,
    0x3eaf_0190, 0x3ead_9dbe, 0x3eac_2268, 0x3eaa_98e4, 0x3ea8_fb26, 0x3ea7_3ccb, 0x3ea5_516b, 0x3ea3_2ca5,
    0x3ea0_c7e6, 0x3e9e_260b, 0x3e9b_48e1, 0x3e98_3230, 0x3e94_e3bd, 0x3e91_6487, 0x3e8d_ae6d, 0x3e89_af98,
    0x3e85_5620, 0x3e80_902e, 0x3e76_a0ba, 0x3e6b_5e1d, 0x3e5f_a623, 0x3e53_c665, 0x3e48_0c74, 0x3e3c_a27d,
    0x3e31_7cb6, 0x3e26_97b6, 0x3e1b_f027, 0x3e11_82aa, 0x3e07_59d4, 0x3dfb_05c5, 0x3de7_fcd4, 0x3dd5_9a23,
    0x3dc3_dee8, 0x3db2_ca1b, 0x3da2_6c41, 0x3d92_e0c3, 0x3d84_430a, 0x3d6d_5cfd, 0x3d54_6d5d, 0x3d3d_91b1,
    0x3d28_8dd3, 0x3d15_259f, 0x3d03_1ceb, 0x3ce4_b29d, 0x3cc5_ca7a, 0x3ca9_77c9, 0x3c8f_b0e3, 0x3c70_d845,
    0x3c47_423f, 0x3c22_8754, 0x3c02_8907, 0x3bce_5194, 0x3ba0_902e, 0x3b77_8a73, 0x3b41_0645, 0x3b1e_eabc,
    0x3b12_8ec5, 0x3b1d_4952, 0x3b3f_ba15, 0x3b7b_6ecc, 0x3ba9_91b4, 0x3be4_c9ef, 0x3c18_5f07, 0x3c47_0ea8,
    0x3c7e_8a34, 0x3c9f_8f52, 0x3cc4_8c7c, 0x3cee_6320, 0x3d0e_9a04, 0x3d28_6d9d, 0x3d44_8bf6, 0x3d62_d4ae,
    0x3d81_93b4, 0x3d92_b560, 0x3da4_c963, 0x3db7_c996, 0x3dcb_afd3, 0x3de0_75f7, 0x3df6_1a53, 0x3e06_42e1,
    0x3e11_c8e4, 0x3e1d_8bf5, 0x3e29_78d5, 0x3e35_82e3, 0x3e41_adeb, 0x3e4d_ff5a, 0x3e5a_7c90, 0x3e67_2afb,
    0x3e74_0a65, 0x3e80_8bd4, 0x3e87_29fc, 0x3e8d_e046, 0x3e94_af4f, 0x3e9b_97a1, 0x3ea2_98e0, 0x3ea9_b24b,
    0x3eb0_e31f, 0x3eb8_2a99, 0x3ebf_87ed, 0x3ec6_fbc5, 0x3ece_879d, 0x3ed6_2ced, 0x3edd_ed25, 0x3ee5_c87f,
    0x3eed_bd73, 0x3ef5_caf3, 0x3efd_eff3, 0x3f03_15b7, 0x3f07_3e66, 0x3f0b_70e9, 0x3f0f_ab6b, 0x3f13_ec1c,
    0x3f18_3127, 0x3f1c_78f9, 0x3f20_c306, 0x3f25_0f01, 0x3f29_5ca2, 0x3f2d_ab9f, 0x3f31_fb32, 0x3f36_4979,
    0x3f3a_947f, 0x3f3e_da52, 0x3f43_18fc, 0x3f47_4e9b, 0x3f4b_79b1, 0x3f4f_98df, 0x3f53_aaca, 0x3f57_ae14,
    0x3f5b_a177, 0x3f5f_8247, 0x3f63_4d0c, 0x3f66_fe52, 0x3f6a_92a3, 0x3f6e_0757, 0x3f71_5b3c, 0x3f74_8d13,
    0x3f77_9b98, 0x3f7a_8588, 0x3f7d_4860, 0x3f7f_e26e, 0x3f81_29d6, 0x3f82_4e09, 0x3f83_5dcc, 0x3f84_598c,
    0x3f85_3f07, 0x3f86_0a42, 0x3f86_b73b, 0x3f87_41f2, 0x3f87_a758, 0x3f87_e909, 0x3f88_0a0e, 0x3f88_0d6c,
    0x3f87_f62b, 0x3f87_c62c, 0x3f87_7b14, 0x3f87_1198, 0x3f86_8668, 0x3f85_d639, 0x3f84_ff29, 0x3f84_03a1,
    0x3f82_e6ba, 0x3f81_ab8c, 0x3f80_5532, 0x3f7d_ca43, 0x3f7a_b576, 0x3f77_6bfe, 0x3f73_edd7, 0x3f70_3afb,
    0x3f6c_5671, 0x3f68_4125, 0x3f63_f7f0, 0x3f5f_77af, 0x3f5a_bd3b, 0x3f55_c811, 0x3f50_a04d, 0x3f4b_4fc6,
    0x3f45_e050, 0x3f40_5bc0, 0x3f3a_c5fe, 0x3f35_248a, 0x3f2f_83a0, 0x3f29_ef7a, 0x3f24_7454, 0x3f1f_1b9a,
    0x3f19_e298, 0x3f14_c34f, 0x3f0f_b7c2, 0x3f0a_b9f5, 0x3f05_c915, 0x3f00_e86b, 0x3ef8_3050, 0x3eee_b0f8,
    0x3ee5_5326, 0x3edc_16c8, 0x3ed2_fe82, 0x3eca_0ec7, 0x3ec1_4c0b, 0x3eb8_bac7, 0x3eb0_5c93, 0x3ea8_335b,
    0x3ea0_440d, 0x3e98_939a, 0x3e91_26e9, 0x3e8a_01c7, 0x3e83_21f3, 0x3e79_06b2, 0x3e6c_43c0, 0x3e5f_f2e5,
    0x3e54_1143, 0x3e48_a017, 0x3e3d_9d6a, 0x3e33_073d, 0x3e28_db8c, 0x3e1f_1873, 0x3e15_bd51, 0x3e0c_ca2e,
    0x3e04_3f08, 0x3df8_37b5, 0x3de8_bbee, 0x3dda_0a52, 0x3dcc_2a80, 0x3dbf_241e, 0x3db2_fec5, 0x3da7_bbb1,
    0x3d9d_4b90, 0x3d93_9d2b, 0x3d8a_9f4b, 0x3d82_40b8, 0x3d74_f807, 0x3d66_881f, 0x3d58_f829, 0x3d4c_0e99,
    0x3d3f_91e6, 0x3d33_56e7, 0x3d27_6cec, 0x3d1b_f20e, 0x3d11_046d, 0x3d06_c227, 0x3cfa_61c1, 0x3ce8_7e59,
    0x3cd7_d122, 0x3cc8_5122, 0x3cb9_f55a, 0x3cac_b8f6, 0x3ca0_8fed, 0x3c95_666f, 0x3c8b_28ad, 0x3c81_c2e3,
    0x3c72_5471, 0x3c62_9cc3, 0x3c54_26b3, 0x3c46_b98d, 0x3c3a_1bc5, 0x3c2e_26ba, 0x3c22_d68b, 0x3c18_2e77,
    0x3c0e_31c1, 0x3c04_e3a6, 0x3bf8_75ae, 0x3be8_48b6, 0x3bd9_29ee, 0x3bcb_02d9, 0x3bbd_bcf1, 0x3bb1_44e9,
    0x3ba5_9023, 0x3b9a_955c, 0x3b90_4b4b, 0x3b86_a8a0, 0x3b7b_4263, 0x3b6a_5719, 0x3b5a_84fa, 0x3b4b_c19f,
    0x3b3e_02a3, 0x3b31_3b6e, 0x3b25_5940, 0x3b1a_4863, 0x3b0f_f51a, 0x3b06_4bb4, 0x3afa_792d, 0x3ae9_7f24,
    0x3ad9_980c, 0x3aca_b28e, 0x3abc_bd69, 0x3aaf_a459, 0x3aa3_5a0d, 0x3a97_d7d6, 0x3a8d_16ff, 0x3a83_10bb,
    0x3a73_7668, 0x3a62_14ea, 0x3a51_e971, 0x3a42_e076, 0x3a34_e664, 0x3a27_e846, 0x3a1b_d85c, 0x3a10_ab02,
    0x3a06_5487, 0x39f9_927f, 0x39e7_f91e, 0x39d7_c02a, 0x39c8_cae5, 0x39ba_fca2, 0x39ae_38b3, 0x39a2_6718,
    0x3997_75c5, 0x398d_50f7, 0x3983_e4ea, 0x3976_3ba7, 0x3965_d144, 0x3956_75fa, 0x3948_1c5b, 0x393a_b711,
    0x392e_38af, 0x3922_8dd5, 0x3917_a5a5, 0x390d_7693, 0x3903_f724, 0x38f6_3ba0, 0x38e5_bf04, 0x38d6_615c,
    0x38c8_0e81, 0x38ba_b258, 0x38ae_38b2, 0x38a2_8e4f, 0x3897_a6c5, 0x388d_781f, 0x3883_f873, 0x3876_3ba5,
    0x3865_b924, 0x3856_5354, 0x3847_f84c, 0x383a_9620, 0x382e_1af5, 0x3822_7580, 0x3817_9736, 0x380d_725b,
    0x3803_f926, 0x37f6_3ba5, 0x37e5_a4ef, 0x37d6_1d15, 0x37c7_98b6, 0x37ba_0c65, 0x37ad_6cb6, 0x37a1_aadd,
    0x3796_b68d, 0x378c_8228, 0x3783_0023, 0x3774_45bc, 0x3763_bb54, 0x3754_4e10, 0x3745_ecb8, 0x3738_85f1,
    0x372c_0882, 0x3720_625e, 0x3715_84f0, 0x370b_6420, 0x3701_f3d3, 0x36f2_4fd6, 0x36e1_e785, 0x36d2_9a10,
    0x36c4_5652, 0x36b7_0b1b, 0x36aa_a746, 0x369f_18e2, 0x3694_518a, 0x368a_4542, 0x3680_e817, 0x3670_5c50,
    0x3660_15c4, 0x3650_e80e, 0x3642_c20f, 0x3635_92a1, 0x3629_48a6, 0x361d_d258, 0x3613_2167, 0x3609_29f8,
    0x35ff_c061, 0x35ee_7062, 0x35de_4b1d, 0x35cf_3c31, 0x35c1_32c8, 0x35b4_1dfb, 0x35a7_ece1,
];

/// The Y matching function.
pub const CIE_Y: [u32; 471] = [
    0x3683_6ec6, 0x3693_6c93, 0x36a5_68fa, 0x36b9_a0b0, 0x36d0_506b, 0x36e9_b4e5, 0x3703_1585, 0x3713_176c,
    0x3725_15cf, 0x3739_4650, 0x374f_dea5, 0x3768_f9ad, 0x3782_8101, 0x3792_5279, 0x37a4_47c8, 0x37b8_b797,
    0x37d0_5ebe, 0x37eb_3a26, 0x3804_4032, 0x3813_b40b, 0x3823_93ee, 0x3833_a07f, 0x3844_c62b, 0x3858_61e9,
    0x386f_d0b1, 0x3886_37bd, 0x3897_b781, 0x38ac_695c, 0x38c4_19d0, 0x38de_9563, 0x38fb_a882, 0x390d_8a7e,
    0x391e_d9d3, 0x3932_79dd, 0x3949_2237, 0x3963_8a7e, 0x3981_7342, 0x3993_7365, 0x39a6_ff08, 0x39bb_4f86,
    0x39cf_9e38, 0x39e3_6434, 0x39f8_0035, 0x3a07_c212, 0x3a16_00f2, 0x3a27_c5ac, 0x3a3d_f066, 0x3a58_665e,
    0x3a76_b82e, 0x3a8c_3b37, 0x3a9e_98dd, 0x3ab2_8831, 0x3ac8_a384, 0x3ae1_7df9, 0x3afd_aaaa, 0x3b0e_de55,
    0x3b20_e0b6, 0x3b35_243a, 0x3b4c_5401, 0x3b67_1b2d, 0x3b83_126f, 0x3b94_f8a0, 0x3ba9_0f83, 0x3bbf_038b,
    0x3bd6_812c, 0x3bef_34d7, 0x3c04_7d45, 0x3c11_f5e1, 0x3c20_089f, 0x3c2e_b9dd, 0x3c3e_0ded, 0x3c4d_ffb2,
    0x3c5e_8a0f, 0x3c6f_b153, 0x3c80_bcef, 0x3c89_f40a, 0x3c93_842c, 0x3c9d_67af, 0x3ca7_8efb, 0x3cb1_ea73,
    0x3cbc_6a7f, 0x3cc7_057d, 0x3cd1_cc91, 0x3cdc_d838, 0x3ce8_40e1, 0x3cf4_1f21, 0x3d00_3fc9, 0x3d06_b10a,
    0x3d0d_6605, 0x3d14_6169, 0x3d1b_a5e3, 0x3d23_3643, 0x3d2b_14ec, 0x3d33_43fa, 0x3d3b_c586, 0x3d44_9ba6,
    0x3d4d_cc51, 0x3d57_56d4, 0x3d61_334c, 0x3d6b_59d6, 0x3d75_c28f, 0x3d80_3576, 0x3d85_b038, 0x3d8b_59a5,
    0x3d91_39d5, 0x3d97_58e2, 0x3d9d_ba91, 0x3da4_62b6, 0x3dab_5980, 0x3db2_a71c, 0x3dba_53b9, 0x3dc2_6422,
    0x3dca_d88c, 0x3dd3_b24a, 0x3ddc_f29a, 0x3de6_9ad4, 0x3df0_b49e, 0x3dfb_3cb7, 0x3e03_108b, 0x3e08_a7da,
    0x3e0e_5b42, 0x3e14_260d, 0x3e1a_14a0, 0x3e20_378c, 0x3e26_9f78, 0x3e2d_5cfb, 0x3e34_7912, 0x3e3b_f6a8,
    0x3e43_dd33, 0x3e4c_343b, 0x3e55_0332, 0x3e5e_54ae, 0x3e68_2d17, 0x3e72_8aab, 0x3e7d_6bb6, 0x3e84_6738,
    0x3e8a_55ad, 0x3e90_88d3, 0x3e97_10dc, 0x3e9d_fdf0, 0x3ea5_6042, 0x3ead_430a, 0x3eb5_9961, 0x3ebe_4f47,
    0x3ec7_50b1, 0x3ed0_89a0, 0x3ed9_ec2a, 0x3ee3_7c8c, 0x3eed_4208, 0x3ef7_43d9, 0x3f00_c49c, 0x3f06_08a3,
    0x3f0b_6523, 0x3f10_d10f, 0x3f16_435c, 0x3f1b_b2ff, 0x3f21_1ccb, 0x3f26_7a82, 0x3f2b_be7a, 0x3f30_db0c,
    0x3f35_c28f, 0x3f3a_6a58, 0x3f3e_d6b4, 0x3f43_106d, 0x3f47_2050, 0x3f4b_0f28, 0x3f4e_e053, 0x3f52_8f1c,
    0x3f56_1834, 0x3f59_7848, 0x3f5c_ac08, 0x3f5f_b211, 0x3f62_8ce5, 0x3f65_3f12, 0x3f67_cb20, 0x3f6a_339e,
    0x3f6c_79e2, 0x3f6e_9d9c, 0x3f70_9ec4, 0x3f72_7d5a, 0x3f74_3958, 0x3f75_d358, 0x3f77_4c43, 0x3f78_a489,
    0x3f79_dc9c, 0x3f7a_f4f1, 0x3f7b_ed7b, 0x3f7c_cb91, 0x3f7d_8524, 0x3f7e_28e7, 0x3f7e_b50d, 0x3f7f_2870,
    0x3f7f_835f, 0x3f7f_c5ce, 0x3f7f_ef7f, 0x3f80_0000, 0x3f7f_f69c, 0x3f7f_d26d, 0x3f7f_9243, 0x3f7f_34c1,
    0x3f7e_b852, 0x3f7e_1b11, 0x3f7d_5fc5, 0x3f7c_879f, 0x3f7b_93ce, 0x3f7a_8588, 0x3f79_5d8d, 0x3f78_1b9b,
    0x3f76_bf52, 0x3f75_4854, 0x3f73_b646, 0x3f72_090a, 0x3f70_417c, 0x3f6e_60af, 0x3f6c_67b8, 0x3f6a_57a8,
    0x3f68_3192, 0x3f65_f57f, 0x3f63_a2ed, 0x3f61_395e, 0x3f5e_b852, 0x3f5c_1fdf, 0x3f59_71c1, 0x3f56_afee,
    0x3f53_dc5e, 0x3f50_f909, 0x3f4e_0707, 0x3f4b_076c, 0x3f47_fc33, 0x3f44_e753, 0x3f41_cac1, 0x3f3e_a834,
    0x3f3b_8009, 0x3f38_5228, 0x3f35_1e7e, 0x3f31_e4f7, 0x3f2e_a5eb, 0x3f2b_627e, 0x3f28_1bd0, 0x3f24_d303,
    0x3f21_8937, 0x3f1e_3f70, 0x3f1a_f5e2, 0x3f17_ac7b, 0x3f14_6326, 0x3f11_19ce, 0x3f0d_d065, 0x3f0a_87f8,
    0x3f07_4221, 0x3f04_007a, 0x3f00_c49c, 0x3efb_1eba, 0x3ef4_c067, 0x3eee_6d4b, 0x3ee8_2477, 0x3ee1_e4f7,
    0x3edb_b060, 0x3ed5_85be, 0x3ecf_605b, 0x3ec9_3b7e, 0x3ec3_126f, 0x3ebc_e2df, 0x3eb6_b20e, 0x3eb0_8696,
    0x3eaa_6712, 0x3ea4_5a1d, 0x3e9e_6190, 0x3e98_7fd9, 0x3e92_bc65, 0x3e8d_1ea8, 0x3e87_ae14, 0x3e82_7052,
    0x3e7a_c457, 0x3e70_fb80, 0x3e67_7a63, 0x3e5e_353f, 0x3e55_2851, 0x3e4c_5685, 0x3e43_be30, 0x3e3b_5da4,
    0x3e33_3333, 0x3e2b_3ca3, 0x3e23_7a59, 0x3e1b_eea9, 0x3e14_9be2, 0x3e0d_844d, 0x3e06_a804, 0x3e00_0680,
    0x3df3_4282, 0x3de6_f37c, 0x3ddb_22d1, 0x3dcf_d2c1, 0x3dc4_fe8d, 0x3dba_9ead, 0x3db0_aba0, 0x3da7_1de7,
    0x3d9d_f16d, 0x3d95_258c, 0x3d8c_b7df, 0x3d84_a602, 0x3d79_db23, 0x3d6b_184a, 0x3d5c_fff6, 0x3d4f_8f4a,
    0x3d42_c36c, 0x3d36_9985, 0x3d2b_0b31, 0x3d20_178d, 0x3d15_c3f7, 0x3d0c_15cd, 0x3d03_126f, 0x3cf5_7426,
    0x3ce6_00fb, 0x3cd7_b0ac, 0x3cca_6889, 0x3cbe_0ded, 0x3cb2_9787, 0x3ca7_f1f7, 0x3c9d_f35b, 0x3c94_71d7,
    0x3c8b_4396, 0x3c82_48aa, 0x3c73_17a5, 0x3c62_4631, 0x3c52_48f8, 0x3c43_4c1b, 0x3c35_57db, 0x3c28_51b9,
    0x3c1c_319b, 0x3c10_ef79, 0x3c06_833c, 0x3bf9_d0e9, 0x3be8_2cd8, 0x3bd7_fd4f, 0x3bc9_2558, 0x3bbb_8801,
    0x3baf_14d4, 0x3ba3_b3c6, 0x3b99_3c85, 0x3b8f_86bb, 0x3b86_6a12, 0x3b7b_8e8e, 0x3b6b_3717, 0x3b5b_d275,
    0x3b4d_655b, 0x3b3f_f477, 0x3b33_7259, 0x3b27_c398, 0x3b1c_d7f9, 0x3b12_9f3f, 0x3b09_0929, 0x3b00_07c0,
    0x3aef_26bf, 0x3adf_4aa9, 0x3ad0_6dd2, 0x3ac2_82c7, 0x3ab5_77fa, 0x3aa9_3fc4, 0x3a9d_d2a0, 0x3a93_290a,
    0x3a89_3b7e, 0x3a80_00e9, 0x3a6e_d77a, 0x3a5e_db79, 0x3a4f_f154, 0x3a41_fc8f, 0x3a34_e6ab, 0x3a28_a3ce,
    0x3a1d_277f, 0x3a12_6543, 0x3a08_509c, 0x39fd_b5c9, 0x39eb_f510, 0x39db_5558, 0x39cb_cce7, 0x39bd_5206,
    0x39af_d669, 0x39a3_48d3, 0x3997_9b26, 0x398c_bf46, 0x3982_a70f, 0x3972_89a2, 0x3961_1d3a, 0x3950_f813,
    0x3942_094f, 0x3934_400e, 0x3927_8a1b, 0x391b_d2b1, 0x3911_050e, 0x3907_0c79, 0x38fb_a882, 0x38ea_961d,
    0x38da_c7a9, 0x38cc_20a7, 0x38be_8481, 0x38b1_d6a7, 0x38a5_fb8b, 0x389a_e436, 0x3890_86ff, 0x3886_da3c,
    0x387b_a882, 0x386a_ce13, 0x385b_0cd0, 0x384c_56fc, 0x383e_9ed9, 0x3831_d6a7, 0x3825_ee58, 0x381a_d54f,
    0x3810_7cfd, 0x3806_d6d3, 0x37fb_a882, 0x37ea_cec0, 0x37db_0e71, 0x37cc_5938, 0x37be_a0ba, 0x37b1_d6a7,
    0x37a5_ea1d, 0x379a_cb32, 0x3790_6cf2, 0x3786_c272, 0x377b_7d8f, 0x376a_aae9, 0x375a_f7fb, 0x374c_50e3,
    0x373e_a1bd, 0x3731_d6a7, 0x3725_db85, 0x371a_a405, 0x3710_27ea, 0x3706_5ef7, 0x36fa_81e0, 0x36e9_863a,
    0x36d9_b374, 0x36ca_f5ee, 0x36bd_3a0b, 0x36b0_6c28, 0x36a4_79e4, 0x3699_5599, 0x368e_f2ca, 0x3685_44fa,
    0x3678_7f56, 0x3667_abb5, 0x3657_fa02, 0x3649_58c3, 0x363b_b67b, 0x362f_01aa, 0x3623_280b, 0x3618_1ab5,
    0x360d_cd49, 0x3604_335d, 0x35f6_8118, 0x35e5_cfc6, 0x35d6_3dfa, 0x35c7_ba62, 0x35ba_33bf, 0x35ad_98e3,
    0x35a1_d7a9, 0x3596_e142, 0x358c_a951, 0x3583_2373, 0x3574_86a2, 0x3563_f81b, 0x3554_86ab, 0x3546_2130,
    0x3538_b68c, 0x352c_359b, 0x3520_8c66, 0x3515_ac3c, 0x350b_88ef, 0x3502_164e, 0x34f2_904b,
];

/// The Z matching function.
pub const CIE_Z: [u32; 471] = [
    0x3a1e_e2af, 0x3a32_7d08, 0x3a48_940d, 0x3a61_7275, 0x3a7d_62f2, 0x3a8e_581d, 0x3a9f_fc12, 0x3ab3_ed24,
    0x3aca_51eb, 0x3ae3_50fb, 0x3aff_10ed, 0x3b0e_b909, 0x3b1f_a218, 0x3b33_0a91, 0x3b49_b958, 0x3b64_7560,
    0x3b82_429f, 0x3b94_cbaa, 0x3ba9_0720, 0x3bbe_2650, 0x3bd3_5a88, 0x3be8_1a53, 0x3bfd_cddd, 0x3c0b_486a,
    0x3c1a_3f76, 0x3c2c_d9de, 0x3c44_0c34, 0x3c5f_bcdf, 0x3c7f_6505, 0x3c91_3ed2, 0x3ca4_3feb, 0x3cb8_69be,
    0x3cce_7645, 0x3ce7_aadf, 0x3d02_a678, 0x3d14_50f0, 0x3d29_ba97, 0x3d42_9343, 0x3d5d_accf, 0x3d79_d912,
    0x3d8a_f4f2, 0x3d98_8c49, 0x3da6_a0e4, 0x3db6_962f, 0x3dc9_cf97, 0x3de1_b08a, 0x3dff_3542, 0x3e11_1a40,
    0x3e25_2cbf, 0x3e3b_a7ac, 0x3e54_60aa, 0x3e6f_4cfb, 0x3e86_7500, 0x3e96_ecb2, 0x3ea9_5e6c, 0x3ebe_1b09,
    0x3ed5_195c, 0x3eee_5153, 0x3f05_0ab8, 0x3f14_5c19, 0x3f25_460b, 0x3f37_ee8e, 0x3f4b_f567, 0x3f60_ba82,
    0x3f75_9dcb, 0x3f84_ff98, 0x3f8e_c45b, 0x3f98_20ac, 0x3fa1_0a2f, 0x3fa9_7686, 0x3fb1_5b57, 0x3fb8_a845,
    0x3fbf_55b9, 0x3fc5_667e, 0x3fca_dd5f, 0x3fcf_bd27, 0x3fd4_0513, 0x3fd7_b7c7, 0x3fda_dd2b, 0x3fdd_7d29,
    0x3fdf_9fa9, 0x3fe1_4924, 0x3fe2_8304, 0x3fe3_5c9c, 0x3fe3_e53e, 0x3fe4_2c3d, 0x3fe4_384d, 0x3fe4_0ebd,
    0x3fe3_bcc4, 0x3fe3_4f9d, 0x3fe2_d480, 0x3fe2_564f, 0x3fe1_cc08, 0x3fe1_2512, 0x3fe0_50d1, 0x3fdf_3eab,
    0x3fdd_e547, 0x3fdc_4514, 0x3fda_5c24, 0x3fd8_288a, 0x3fd5_a858, 0x3fd2_e238, 0x3fcf_cbfd, 0x3fcc_4a75,
    0x3fc8_4274, 0x3fc3_98c8, 0x3fbe_38e6, 0x3fb8_423e, 0x3fb1_e796, 0x3fab_5bb5, 0x3fa4_d163, 0x3f9e_63db,
    0x3f98_0aa0, 0x3f91_c2ec, 0x3f8b_89f8, 0x3f85_5cfb, 0x3f7e_83bc, 0x3f72_855a, 0x3f66_c5a1, 0x3f5b_4b67,
    0x3f50_1d7f, 0x3f45_409f, 0x3f3a_bce5, 0x3f30_9e2d, 0x3f26_f059, 0x3f1d_bf48, 0x3f15_137d, 0x3f0c_e813,
    0x3f05_34d8, 0x3efb_e323, 0x3eee_2c13, 0x3ee1_3dcc, 0x3ed5_1604, 0x3ec9_aaed, 0x3ebe_f2c4, 0x3eb4_e3bd,
    0x3eab_727b, 0x3ea2_9630, 0x3e9a_48e9, 0x3e92_84b1, 0x3e8b_4396, 0x3e84_83ad, 0x3e7c_6640, 0x3e70_6805,
    0x3e64_d0f1, 0x3e59_652c, 0x3e4d_ff4c, 0x3e42_aeb6, 0x3e37_86dd, 0x3e2c_9b34, 0x3e21_ff2e, 0x3e17_b191,
    0x3e0d_b263, 0x3e04_170e, 0x3df5_e9ef, 0x3de4_c2f8, 0x3dd4_cc0a, 0x3dc5_f99a, 0x3db8_48dc, 0x3dab_b717,
    0x3da0_4188, 0x3d95_ee98, 0x3d8c_a723, 0x3d84_3c25, 0x3d78_fd34, 0x3d6a_7efd, 0x3d5c_cacf, 0x3d4f_dbb5,
    0x3d43_9866, 0x3d37_e795, 0x3d2c_aff7, 0x3d21_d263, 0x3d17_49d3, 0x3d0d_2436, 0x3d03_6f76, 0x3cf4_7304,
    0x3ce3_03e1, 0x3cd2_7d25, 0x3cc2_dd4a, 0x3cb4_22cd, 0x3ca6_4c30, 0x3c99_5699, 0x3c8d_3ba8, 0x3c81_f477,
    0x3c6e_f44a, 0x3c5b_8bac, 0x3c49_a444, 0x3c39_2b85, 0x3c2a_0827, 0x3c1c_20ce, 0x3c0f_5c28, 0x3c03_a612,
    0x3bf1_e159, 0x3bde_5810, 0x3bcc_9067, 0x3bbc_6a7d, 0x3bad_c9d2, 0x3ba0_8e80, 0x3b94_93a0, 0x3b89_b449,
    0x3b7f_9724, 0x3b6d_7336, 0x3b5c_e549, 0x3b4d_dff2, 0x3b40_55c6, 0x3b34_3954, 0x3b29_6c75, 0x3b1f_d0eb,
    0x3b17_594d, 0x3b0f_f830, 0x3b09_a027, 0x3b04_3bf1, 0x3aff_5abf, 0x3af7_b32a, 0x3af1_4b76, 0x3aeb_edfa,
    0x3ae7_8216, 0x3ae3_c6e4, 0x3ae0_4a58, 0x3adc_9a5b, 0x3ad8_44d9, 0x3ad3_0b19, 0x3acd_0c8e, 0x3ac6_63fd,
    0x3abf_2c3f, 0x3ab7_8034, 0x3aaf_331a, 0x3aa6_7621, 0x3a9d_f117, 0x3a96_4bc3, 0x3a90_2de0, 0x3a8c_16fa,
    0x3a89_8c05, 0x3a87_bcf8, 0x3a85_d9c9, 0x3a83_126f, 0x3a7d_ec54, 0x3a73_c5e0, 0x3a68_7d82, 0x3a5c_df3f,
    0x3a51_b717, 0x3a47_7b29, 0x3a3d_b558, 0x3a33_cf50, 0x3a29_32bf, 0x3a1d_4952, 0x3a0f_9eb6, 0x3a00_deb8,
    0x39e4_4666, 0x39c9_0c07, 0x39b2_4207, 0x39a1_16d7, 0x3994_7518, 0x398b_2ac1, 0x3984_05cf, 0x397b_a882,
    0x3970_b279, 0x3967_5b99, 0x395e_4194, 0x3954_0214, 0x3947_3abd, 0x3936_ad07, 0x3923_334b, 0x390e_907c,
    0x38f5_0f23, 0x38d1_b717, 0x38b4_a27b, 0x389c_7292, 0x3888_509c, 0x386e_cbb3, 0x3851_b715, 0x3839_3870,
    0x3825_9754, 0x3815_d20f, 0x3808_e6ef, 0x37fb_a882, 0x37e7_f913, 0x37d6_69af, 0x37c6_4e83, 0x37b6_fbc5,
    0x37a7_c5ac, 0x3798_1d08, 0x3787_e53c, 0x376e_3c89, 0x374b_9041, 0x3727_c5ac, 0x3701_be6a, 0x36b5_31a6,
    0x3656_bf95, 0x35b2_f4f9, 0x0000_0000, 0x0000_0000, 0x0000_0000, 0x0000_0000, 0x0000_0000, 0x0000_0000,
    0x0000_0000, 0x0000_0000, 0x0000_0000, 0x0000_0000, 0x0000_0000, 0x0000_0000, 0x0000_0000, 0x0000_0000,
    0x0000_0000, 0x0000_0000, 0x0000_0000, 0x0000_0000, 0x0000_0000, 0x0000_0000, 0x0000_0000, 0x0000_0000,
    0x0000_0000, 0x0000_0000, 0x0000_0000, 0x0000_0000, 0x0000_0000, 0x0000_0000, 0x0000_0000, 0x0000_0000,
    0x0000_0000, 0x0000_0000, 0x0000_0000, 0x0000_0000, 0x0000_0000, 0x0000_0000, 0x0000_0000, 0x0000_0000,
    0x0000_0000, 0x0000_0000, 0x0000_0000, 0x0000_0000, 0x0000_0000, 0x0000_0000, 0x0000_0000, 0x0000_0000,
    0x0000_0000, 0x0000_0000, 0x0000_0000, 0x0000_0000, 0x0000_0000, 0x0000_0000, 0x0000_0000, 0x0000_0000,
    0x0000_0000, 0x0000_0000, 0x0000_0000, 0x0000_0000, 0x0000_0000, 0x0000_0000, 0x0000_0000, 0x0000_0000,
    0x0000_0000, 0x0000_0000, 0x0000_0000, 0x0000_0000, 0x0000_0000, 0x0000_0000, 0x0000_0000, 0x0000_0000,
    0x0000_0000, 0x0000_0000, 0x0000_0000, 0x0000_0000, 0x0000_0000, 0x0000_0000, 0x0000_0000, 0x0000_0000,
    0x0000_0000, 0x0000_0000, 0x0000_0000, 0x0000_0000, 0x0000_0000, 0x0000_0000, 0x0000_0000, 0x0000_0000,
    0x0000_0000, 0x0000_0000, 0x0000_0000, 0x0000_0000, 0x0000_0000, 0x0000_0000, 0x0000_0000, 0x0000_0000,
    0x0000_0000, 0x0000_0000, 0x0000_0000, 0x0000_0000, 0x0000_0000, 0x0000_0000, 0x0000_0000, 0x0000_0000,
    0x0000_0000, 0x0000_0000, 0x0000_0000, 0x0000_0000, 0x0000_0000, 0x0000_0000, 0x0000_0000, 0x0000_0000,
    0x0000_0000, 0x0000_0000, 0x0000_0000, 0x0000_0000, 0x0000_0000, 0x0000_0000, 0x0000_0000, 0x0000_0000,
    0x0000_0000, 0x0000_0000, 0x0000_0000, 0x0000_0000, 0x0000_0000, 0x0000_0000, 0x0000_0000, 0x0000_0000,
    0x0000_0000, 0x0000_0000, 0x0000_0000, 0x0000_0000, 0x0000_0000, 0x0000_0000, 0x0000_0000, 0x0000_0000,
    0x0000_0000, 0x0000_0000, 0x0000_0000, 0x0000_0000, 0x0000_0000, 0x0000_0000, 0x0000_0000, 0x0000_0000,
    0x0000_0000, 0x0000_0000, 0x0000_0000, 0x0000_0000, 0x0000_0000, 0x0000_0000, 0x0000_0000, 0x0000_0000,
    0x0000_0000, 0x0000_0000, 0x0000_0000, 0x0000_0000, 0x0000_0000, 0x0000_0000, 0x0000_0000, 0x0000_0000,
    0x0000_0000, 0x0000_0000, 0x0000_0000, 0x0000_0000, 0x0000_0000, 0x0000_0000, 0x0000_0000, 0x0000_0000,
    0x0000_0000, 0x0000_0000, 0x0000_0000, 0x0000_0000, 0x0000_0000, 0x0000_0000, 0x0000_0000, 0x0000_0000,
    0x0000_0000, 0x0000_0000, 0x0000_0000, 0x0000_0000, 0x0000_0000, 0x0000_0000, 0x0000_0000,
];

} // verus!
